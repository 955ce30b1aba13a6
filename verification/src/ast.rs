//! The syntax tree of QLang programs, and its mathematical model.
use vstd::prelude::*;

verus! {

/// A type written after `let name:`.
#[derive(Debug, Clone, Copy, PartialEq, Eq, Structural)]
pub enum TypeAnnotation {
    Dec,
    F64,
    Vector(usize),
    Matrix(usize, usize),
}

/// The binary operators of the language.
#[derive(Debug, Clone, Copy, PartialEq, Eq, Structural)]
pub enum BinaryOp {
    MatMul,
    Pipe,
    ElementMul,
    ElementDiv,
    ElementAdd,
    ElementSub,
    Add,
    Sub,
    Mul,
    Div,
}

/// An expression. A number literal keeps the text it was written with
/// (digits, at most one `.`, and possibly a leading `-`).
#[derive(Debug)]
pub enum Expr {
    Number(String),
    Decimal(String),
    Variable(String),
    Vector(Vec<Expr>),
    Matrix(Vec<Vec<Expr>>),
    Slice { target: Box<Expr>, start: usize, end: usize },
    MatrixSlice {
        target: Box<Expr>,
        r_start: usize,
        r_end: usize,
        c_start: usize,
        c_end: usize,
    },
    Binary { op: BinaryOp, left: Box<Expr>, right: Box<Expr> },
    Call { callee: String, args: Vec<Expr> },
}

/// A statement: a (possibly annotated) binding, or an expression.
#[derive(Debug)]
pub enum Statement {
    Let { name: String, ty: Option<TypeAnnotation>, value: Expr },
    Expression(Expr),
}

/// A whole program: its statements in source order.
#[derive(Debug)]
pub struct Program {
    pub statements: Vec<Statement>,
}

/// The mathematical model of an expression: strings are character sequences.
pub enum SpecExpr {
    Number(Seq<char>),
    Decimal(Seq<char>),
    Variable(Seq<char>),
    Vector(Seq<SpecExpr>),
    Matrix(Seq<Seq<SpecExpr>>),
    Slice { target: Box<SpecExpr>, start: usize, end: usize },
    MatrixSlice {
        target: Box<SpecExpr>,
        r_start: usize,
        r_end: usize,
        c_start: usize,
        c_end: usize,
    },
    Binary { op: BinaryOp, left: Box<SpecExpr>, right: Box<SpecExpr> },
    Call { callee: Seq<char>, args: Seq<SpecExpr> },
}

/// The mathematical model of a statement.
pub enum SpecStatement {
    Let { name: Seq<char>, ty: Option<TypeAnnotation>, value: SpecExpr },
    Expression(SpecExpr),
}

/// The models of a sequence of expressions, element by element.
pub open spec fn exprs_model(s: Seq<Expr>) -> Seq<SpecExpr>
    decreases s,
{
    if s.len() == 0 {
        seq![]
    } else {
        exprs_model(s.subrange(0, s.len() - 1)).push(s[s.len() - 1].model())
    }
}

/// The models of the rows of a matrix literal.
pub open spec fn rows_model(s: Seq<Vec<Expr>>) -> Seq<Seq<SpecExpr>>
    decreases s,
{
    if s.len() == 0 {
        seq![]
    } else {
        rows_model(s.subrange(0, s.len() - 1)).push(exprs_model(s[s.len() - 1]@))
    }
}

impl Expr {
    pub open spec fn model(&self) -> SpecExpr
        decreases self,
    {
        match self {
            Expr::Number(t) => SpecExpr::Number(t@),
            Expr::Decimal(t) => SpecExpr::Decimal(t@),
            Expr::Variable(t) => SpecExpr::Variable(t@),
            Expr::Vector(v) => SpecExpr::Vector(exprs_model(v@)),
            Expr::Matrix(rows) => SpecExpr::Matrix(rows_model(rows@)),
            Expr::Slice { target, start, end } => SpecExpr::Slice {
                target: Box::new(target.model()),
                start: *start,
                end: *end,
            },
            Expr::MatrixSlice { target, r_start, r_end, c_start, c_end } => SpecExpr::MatrixSlice {
                target: Box::new(target.model()),
                r_start: *r_start,
                r_end: *r_end,
                c_start: *c_start,
                c_end: *c_end,
            },
            Expr::Binary { op, left, right } => SpecExpr::Binary {
                op: *op,
                left: Box::new(left.model()),
                right: Box::new(right.model()),
            },
            Expr::Call { callee, args } => SpecExpr::Call { callee: callee@, args: exprs_model(args@) },
        }
    }
}

impl View for Expr {
    type V = SpecExpr;

    open spec fn view(&self) -> SpecExpr {
        self.model()
    }
}

impl View for Statement {
    type V = SpecStatement;

    open spec fn view(&self) -> SpecStatement {
        match self {
            Statement::Let { name, ty, value } => SpecStatement::Let {
                name: name@,
                ty: *ty,
                value: value.model(),
            },
            Statement::Expression(e) => SpecStatement::Expression(e.model()),
        }
    }
}

/// The models of a sequence of statements.
pub open spec fn statements_model(s: Seq<Statement>) -> Seq<SpecStatement> {
    s.map_values(|st: Statement| st@)
}

impl View for Program {
    type V = Seq<SpecStatement>;

    open spec fn view(&self) -> Seq<SpecStatement> {
        statements_model(self.statements@)
    }
}

/// Appending an expression appends its model.
pub proof fn lemma_exprs_model_push(s: Seq<Expr>, e: Expr)
    ensures
        exprs_model(s.push(e)) == exprs_model(s).push(e.model()),
{
    assert(s.push(e).subrange(0, s.len() as int) =~= s);
}

/// Appending a row appends its model.
pub proof fn lemma_rows_model_push(s: Seq<Vec<Expr>>, r: Vec<Expr>)
    ensures
        rows_model(s.push(r)) == rows_model(s).push(exprs_model(r@)),
{
    assert(s.push(r).subrange(0, s.len() as int) =~= s);
}

/// The model of a sequence has the same length, and models each element.
pub proof fn lemma_exprs_model_index(s: Seq<Expr>)
    ensures
        exprs_model(s).len() == s.len(),
        forall|i: int| 0 <= i < s.len() ==> #[trigger] exprs_model(s)[i] == s[i].model(),
    decreases s.len(),
{
    if s.len() > 0 {
        lemma_exprs_model_index(s.subrange(0, s.len() - 1));
    }
}

/// The model of a sequence of rows has the same shape, and models each row.
pub proof fn lemma_rows_model_index(s: Seq<Vec<Expr>>)
    ensures
        rows_model(s).len() == s.len(),
        forall|i: int| 0 <= i < s.len() ==> #[trigger] rows_model(s)[i] == exprs_model(s[i]@),
    decreases s.len(),
{
    if s.len() > 0 {
        lemma_rows_model_index(s.subrange(0, s.len() - 1));
    }
}

} // verus!
