//! The type and shape checker: the type of every expression, with the
//! shapes of vectors and matrices, under a table of named values.
use vstd::prelude::*;
use crate::ast::{
    exprs_model, lemma_exprs_model_index, lemma_rows_model_index, rows_model, BinaryOp, Expr,
    Program, SpecExpr, SpecStatement, Statement,
};
use crate::chars::text_is;
use crate::numbers::{literal_count, literal_to_usize};

verus! {

/// The type of a value: a scalar, a vector or matrix of a given shape, or
/// nothing.
#[derive(Debug)]
pub enum ResolvedType {
    F64,
    Dec,
    Vector { elem: Box<ResolvedType>, len: usize },
    Matrix { elem: Box<ResolvedType>, rows: usize, cols: usize },
    Void,
}

impl ResolvedType {
    /// A copy of this type.
    pub fn duplicate(&self) -> (r: ResolvedType)
        ensures
            r == *self,
        decreases self,
    {
        match self {
            ResolvedType::F64 => ResolvedType::F64,
            ResolvedType::Dec => ResolvedType::Dec,
            ResolvedType::Vector { elem, len } => ResolvedType::Vector {
                elem: Box::new(elem.duplicate()),
                len: *len,
            },
            ResolvedType::Matrix { elem, rows, cols } => ResolvedType::Matrix {
                elem: Box::new(elem.duplicate()),
                rows: *rows,
                cols: *cols,
            },
            ResolvedType::Void => ResolvedType::Void,
        }
    }
}

/// Why a program does not check.
#[derive(Debug)]
pub enum CheckError {
    UndefinedVariable(String),
    InvalidSliceRange { start: usize, end: usize },
    SliceOutOfBounds { end: usize, len: usize },
    SliceOfNonVector,
    InvalidMatrixSliceRange,
    MatrixSliceOutOfBounds,
    MatrixSliceOfNonMatrix,
    VectorMatrixMismatch { len: usize, rows: usize, cols: usize },
    MatMulMismatch { r1: usize, c1: usize, r2: usize, c2: usize },
    InvalidMatMulOperands,
    ElementwiseMatrixMismatch { r1: usize, c1: usize, r2: usize, c2: usize },
    UnsupportedOperands,
    VectorLengthMismatch { l1: usize, l2: usize },
    MatrixDimensionsMismatch { r1: usize, c1: usize, r2: usize, c2: usize },
    InvalidElementwiseOperands,
    UndefinedFunction(String),
    TransposeOfNonMatrix,
    GeneratorArguments(String),
    LossShapeMismatch { r1: usize, c1: usize, r2: usize, c2: usize },
}

/// The mathematical model of a check error.
pub enum SpecCheckError {
    UndefinedVariable(Seq<char>),
    InvalidSliceRange { start: usize, end: usize },
    SliceOutOfBounds { end: usize, len: usize },
    SliceOfNonVector,
    InvalidMatrixSliceRange,
    MatrixSliceOutOfBounds,
    MatrixSliceOfNonMatrix,
    VectorMatrixMismatch { len: usize, rows: usize, cols: usize },
    MatMulMismatch { r1: usize, c1: usize, r2: usize, c2: usize },
    InvalidMatMulOperands,
    ElementwiseMatrixMismatch { r1: usize, c1: usize, r2: usize, c2: usize },
    UnsupportedOperands,
    VectorLengthMismatch { l1: usize, l2: usize },
    MatrixDimensionsMismatch { r1: usize, c1: usize, r2: usize, c2: usize },
    InvalidElementwiseOperands,
    UndefinedFunction(Seq<char>),
    TransposeOfNonMatrix,
    GeneratorArguments(Seq<char>),
    LossShapeMismatch { r1: usize, c1: usize, r2: usize, c2: usize },
}

impl View for CheckError {
    type V = SpecCheckError;

    open spec fn view(&self) -> SpecCheckError {
        match self {
            CheckError::UndefinedVariable(s) => SpecCheckError::UndefinedVariable(s@),
            CheckError::InvalidSliceRange { start, end } => SpecCheckError::InvalidSliceRange {
                start: *start,
                end: *end,
            },
            CheckError::SliceOutOfBounds { end, len } => SpecCheckError::SliceOutOfBounds {
                end: *end,
                len: *len,
            },
            CheckError::SliceOfNonVector => SpecCheckError::SliceOfNonVector,
            CheckError::InvalidMatrixSliceRange => SpecCheckError::InvalidMatrixSliceRange,
            CheckError::MatrixSliceOutOfBounds => SpecCheckError::MatrixSliceOutOfBounds,
            CheckError::MatrixSliceOfNonMatrix => SpecCheckError::MatrixSliceOfNonMatrix,
            CheckError::VectorMatrixMismatch { len, rows, cols } =>
                SpecCheckError::VectorMatrixMismatch { len: *len, rows: *rows, cols: *cols },
            CheckError::MatMulMismatch { r1, c1, r2, c2 } => SpecCheckError::MatMulMismatch {
                r1: *r1,
                c1: *c1,
                r2: *r2,
                c2: *c2,
            },
            CheckError::InvalidMatMulOperands => SpecCheckError::InvalidMatMulOperands,
            CheckError::ElementwiseMatrixMismatch { r1, c1, r2, c2 } =>
                SpecCheckError::ElementwiseMatrixMismatch { r1: *r1, c1: *c1, r2: *r2, c2: *c2 },
            CheckError::UnsupportedOperands => SpecCheckError::UnsupportedOperands,
            CheckError::VectorLengthMismatch { l1, l2 } => SpecCheckError::VectorLengthMismatch {
                l1: *l1,
                l2: *l2,
            },
            CheckError::MatrixDimensionsMismatch { r1, c1, r2, c2 } =>
                SpecCheckError::MatrixDimensionsMismatch { r1: *r1, c1: *c1, r2: *r2, c2: *c2 },
            CheckError::InvalidElementwiseOperands => SpecCheckError::InvalidElementwiseOperands,
            CheckError::UndefinedFunction(s) => SpecCheckError::UndefinedFunction(s@),
            CheckError::TransposeOfNonMatrix => SpecCheckError::TransposeOfNonMatrix,
            CheckError::GeneratorArguments(s) => SpecCheckError::GeneratorArguments(s@),
            CheckError::LossShapeMismatch { r1, c1, r2, c2 } => SpecCheckError::LossShapeMismatch {
                r1: *r1,
                c1: *c1,
                r2: *r2,
                c2: *c2,
            },
        }
    }
}

/// A checked type, or the error, as a model.
pub open spec fn type_result(r: Result<ResolvedType, CheckError>) -> Result<
    ResolvedType,
    SpecCheckError,
> {
    match r {
        Ok(t) => Ok(t),
        Err(e) => Err(e@),
    }
}

/// The type a binary operator gives to operands of types `l` and `r`.
pub open spec fn binary_type(op: BinaryOp, l: ResolvedType, r: ResolvedType) -> Result<
    ResolvedType,
    SpecCheckError,
> {
    match op {
        BinaryOp::MatMul => match (l, r) {
            (ResolvedType::Vector { len, .. }, ResolvedType::Matrix { elem, rows, cols }) => if len
                != rows {
                Err(SpecCheckError::VectorMatrixMismatch { len, rows, cols })
            } else {
                Ok(ResolvedType::Vector { elem, len: cols })
            },
            (
                ResolvedType::Matrix { elem, rows: r1, cols: c1 },
                ResolvedType::Matrix { rows: r2, cols: c2, .. },
            ) => if c1 != r2 {
                Err(SpecCheckError::MatMulMismatch { r1, c1, r2, c2 })
            } else {
                Ok(ResolvedType::Matrix { elem, rows: r1, cols: c2 })
            },
            _ => Err(SpecCheckError::InvalidMatMulOperands),
        },
        BinaryOp::Pipe => Ok(l),
        BinaryOp::Add | BinaryOp::Sub | BinaryOp::Mul | BinaryOp::Div => match (l, r) {
            (
                ResolvedType::Matrix { elem, rows: r1, cols: c1 },
                ResolvedType::Matrix { rows: r2, cols: c2, .. },
            ) => if op == BinaryOp::Mul {
                if c1 != r2 {
                    Err(SpecCheckError::MatMulMismatch { r1, c1, r2, c2 })
                } else {
                    Ok(ResolvedType::Matrix { elem, rows: r1, cols: c2 })
                }
            } else if op == BinaryOp::Add || op == BinaryOp::Sub {
                if r1 != r2 || c1 != c2 {
                    Err(SpecCheckError::ElementwiseMatrixMismatch { r1, c1, r2, c2 })
                } else {
                    Ok(ResolvedType::Matrix { elem, rows: r1, cols: c1 })
                }
            } else {
                Err(SpecCheckError::UnsupportedOperands)
            },
            (ResolvedType::Vector { elem, len }, ResolvedType::F64) => Ok(
                ResolvedType::Vector { elem, len },
            ),
            (ResolvedType::F64, ResolvedType::Vector { elem, len }) => Ok(
                ResolvedType::Vector { elem, len },
            ),
            (ResolvedType::Matrix { elem, rows, cols }, ResolvedType::F64) => Ok(
                ResolvedType::Matrix { elem, rows, cols },
            ),
            (ResolvedType::F64, ResolvedType::Matrix { elem, rows, cols }) => Ok(
                ResolvedType::Matrix { elem, rows, cols },
            ),
            (ResolvedType::F64, ResolvedType::F64) => Ok(ResolvedType::F64),
            _ => Err(SpecCheckError::UnsupportedOperands),
        },
        BinaryOp::ElementMul | BinaryOp::ElementDiv | BinaryOp::ElementAdd | BinaryOp::ElementSub =>
            match (l, r) {
            (ResolvedType::Vector { elem, len: l1 }, ResolvedType::Vector { len: l2, .. }) => if l1
                != l2 {
                Err(SpecCheckError::VectorLengthMismatch { l1, l2 })
            } else {
                Ok(ResolvedType::Vector { elem, len: l1 })
            },
            (
                ResolvedType::Matrix { elem, rows: r1, cols: c1 },
                ResolvedType::Matrix { rows: r2, cols: c2, .. },
            ) => if r1 != r2 || c1 != c2 {
                Err(SpecCheckError::MatrixDimensionsMismatch { r1, c1, r2, c2 })
            } else {
                Ok(ResolvedType::Matrix { elem, rows: r1, cols: c1 })
            },
            _ => Err(SpecCheckError::InvalidElementwiseOperands),
        },
    }
}

/// A built-in that makes a matrix of the size its two literal arguments give.
pub open spec fn is_generator(callee: Seq<char>) -> bool {
    callee == "zeros"@ || callee == "random"@ || callee == "read_csv"@
}

/// An element-wise activation function.
pub open spec fn is_activation(callee: Seq<char>) -> bool {
    callee == "relu"@ || callee == "sigmoid"@
}

/// The type of expression `e` when the named values have the types in `m`,
/// or the error that checking it stops at.
pub open spec fn spec_infer(m: Map<Seq<char>, ResolvedType>, e: SpecExpr) -> Result<
    ResolvedType,
    SpecCheckError,
>
    decreases e,
{
    match e {
        SpecExpr::Number(_) => Ok(ResolvedType::F64),
        SpecExpr::Decimal(_) => Ok(ResolvedType::Dec),
        SpecExpr::Variable(name) => if m.contains_key(name) {
            Ok(m[name])
        } else {
            Err(SpecCheckError::UndefinedVariable(name))
        },
        SpecExpr::Vector(elems) => match check_exprs(m, elems) {
            Err(err) => Err(err),
            Ok(_) => if elems.len() > 0 {
                match spec_infer(m, elems[0]) {
                    Ok(t) => Ok(ResolvedType::Vector { elem: Box::new(t), len: elems.len() as usize }),
                    Err(err) => Err(err),
                }
            } else {
                Ok(ResolvedType::Vector { elem: Box::new(ResolvedType::F64), len: 0 })
            },
        },
        SpecExpr::Matrix(rows) => match check_rows(m, rows) {
            Err(err) => Err(err),
            Ok(_) => {
            let row_cnt = rows.len();
            let col_cnt = if row_cnt > 0 {
                rows[0].len()
            } else {
                0
            };
            if row_cnt > 0 && col_cnt > 0 {
                match spec_infer(m, rows[0][0]) {
                    Ok(t) => Ok(
                        ResolvedType::Matrix {
                            elem: Box::new(t),
                            rows: row_cnt as usize,
                            cols: col_cnt as usize,
                        },
                    ),
                    Err(err) => Err(err),
                }
            } else {
                Ok(
                    ResolvedType::Matrix {
                        elem: Box::new(ResolvedType::F64),
                        rows: row_cnt as usize,
                        cols: col_cnt as usize,
                    },
                )
            }
        },
        },
        SpecExpr::Slice { target, start, end } => match spec_infer(m, *target) {
            Ok(t) => if start >= end {
                Err(SpecCheckError::InvalidSliceRange { start, end })
            } else {
                match t {
                    ResolvedType::Vector { elem, len } => if end > len {
                        Err(SpecCheckError::SliceOutOfBounds { end, len })
                    } else {
                        Ok(ResolvedType::Vector { elem, len: (end - start) as usize })
                    },
                    _ => Err(SpecCheckError::SliceOfNonVector),
                }
            },
            Err(err) => Err(err),
        },
        SpecExpr::MatrixSlice { target, r_start, r_end, c_start, c_end } => match spec_infer(
            m,
            *target,
        ) {
            Ok(t) => if r_start >= r_end || c_start >= c_end {
                Err(SpecCheckError::InvalidMatrixSliceRange)
            } else {
                match t {
                    ResolvedType::Matrix { elem, rows, cols } => if r_end > rows || c_end > cols {
                        Err(SpecCheckError::MatrixSliceOutOfBounds)
                    } else {
                        Ok(
                            ResolvedType::Matrix {
                                elem,
                                rows: (r_end - r_start) as usize,
                                cols: (c_end - c_start) as usize,
                            },
                        )
                    },
                    _ => Err(SpecCheckError::MatrixSliceOfNonMatrix),
                }
            },
            Err(err) => Err(err),
        },
        SpecExpr::Binary { op, left, right } => match spec_infer(m, *left) {
            Ok(lt) => match spec_infer(m, *right) {
                Ok(rt) => binary_type(op, lt, rt),
                Err(err) => Err(err),
            },
            Err(err) => Err(err),
        },
        SpecExpr::Call { callee, args } => if !m.contains_key(callee) {
            Err(SpecCheckError::UndefinedFunction(callee))
        } else if callee == "print"@ && args.len() > 0 {
            spec_infer(m, args[0])
        } else if callee == "transpose"@ && args.len() > 0 {
            match spec_infer(m, args[0]) {
                Ok(ResolvedType::Matrix { elem, rows, cols }) => Ok(
                    ResolvedType::Matrix { elem, rows: cols, cols: rows },
                ),
                Ok(_) => Err(SpecCheckError::TransposeOfNonMatrix),
                Err(err) => Err(err),
            }
        } else if is_generator(callee) && args.len() == 2 {
            match (args[0], args[1]) {
                (SpecExpr::Number(r), SpecExpr::Number(c)) => Ok(
                    ResolvedType::Matrix {
                        elem: Box::new(ResolvedType::F64),
                        rows: literal_count(r),
                        cols: literal_count(c),
                    },
                ),
                _ => Err(SpecCheckError::GeneratorArguments(callee)),
            }
        } else if is_activation(callee) && args.len() > 0 {
            match spec_infer(m, args[0]) {
                Ok(ResolvedType::Matrix { elem, rows, cols }) => Ok(
                    ResolvedType::Matrix { elem, rows, cols },
                ),
                Ok(_) => Ok(ResolvedType::Void),
                Err(err) => Err(err),
            }
        } else if callee == "mse_loss"@ && args.len() == 2 {
            match spec_infer(m, args[0]) {
                Ok(pt) => match spec_infer(m, args[1]) {
                    Ok(tt) => match (pt, tt) {
                        (
                            ResolvedType::Matrix { rows: r1, cols: c1, .. },
                            ResolvedType::Matrix { rows: r2, cols: c2, .. },
                        ) => if r1 == r2 && c1 == c2 {
                            Ok(ResolvedType::F64)
                        } else {
                            Err(SpecCheckError::LossShapeMismatch { r1, c1, r2, c2 })
                        },
                        _ => Ok(ResolvedType::Void),
                    },
                    Err(err) => Err(err),
                },
                Err(err) => Err(err),
            }
        } else {
            Ok(ResolvedType::Void)
        },
    }
}

/// The type `Matrix { elem, rows, cols }`.
pub open spec fn matrix_type(elem: Box<ResolvedType>, rows: usize, cols: usize) -> ResolvedType {
    ResolvedType::Matrix { elem, rows, cols }
}

/// The type `Vector { elem, len }`.
pub open spec fn vector_type(elem: Box<ResolvedType>, len: usize) -> ResolvedType {
    ResolvedType::Vector { elem, len }
}

/// The expression `left op right`.
pub open spec fn binary_expr(op: BinaryOp, left: SpecExpr, right: SpecExpr) -> SpecExpr {
    SpecExpr::Binary { op, left: Box::new(left), right: Box::new(right) }
}

/// The expression `callee(args...)`.
pub open spec fn call_expr(callee: Seq<char>, args: Seq<SpecExpr>) -> SpecExpr {
    SpecExpr::Call { callee, args }
}

/// The names of the built-in functions differ from each other: by length,
/// and where two have the same length, by their first character.
pub proof fn lemma_builtin_names()
    ensures
        "relu"@.len() == 4,
        "print"@.len() == 5 && "print"@[0] == 'p',
        "zeros"@.len() == 5 && "zeros"@[0] == 'z',
        "random"@.len() == 6,
        "sigmoid"@.len() == 7,
        "mse_loss"@.len() == 8 && "mse_loss"@[0] == 'm',
        "read_csv"@.len() == 8 && "read_csv"@[0] == 'r',
        "transpose"@.len() == 9,
{
    reveal_strlit("relu");
    reveal_strlit("print");
    reveal_strlit("zeros");
    reveal_strlit("random");
    reveal_strlit("sigmoid");
    reveal_strlit("mse_loss");
    reveal_strlit("read_csv");
    reveal_strlit("transpose");
}

/// Matrix multiplication, written `*` or `@`: an `r1`×`c1` matrix times an
/// `r2`×`c2` matrix is an `r1`×`c2` matrix when `c1 == r2`; otherwise the
/// dimensions are rejected as a mismatch.
pub proof fn law_matrix_product_shape(
    m: Map<Seq<char>, ResolvedType>,
    a: SpecExpr,
    b: SpecExpr,
    op: BinaryOp,
    e1: Box<ResolvedType>,
    r1: usize,
    c1: usize,
    e2: Box<ResolvedType>,
    r2: usize,
    c2: usize,
)
    requires
        op == BinaryOp::Mul || op == BinaryOp::MatMul,
        spec_infer(m, a) == Ok::<ResolvedType, SpecCheckError>(matrix_type(e1, r1, c1)),
        spec_infer(m, b) == Ok::<ResolvedType, SpecCheckError>(matrix_type(e2, r2, c2)),
    ensures
        c1 == r2 ==> spec_infer(m, binary_expr(op, a, b)) == Ok::<ResolvedType, SpecCheckError>(
            matrix_type(e1, r1, c2),
        ),
        c1 != r2 ==> spec_infer(m, binary_expr(op, a, b)) == Err::<ResolvedType, SpecCheckError>(
            SpecCheckError::MatMulMismatch { r1, c1, r2, c2 },
        ),
{
}

/// A vector of length `len` times a `rows`×`cols` matrix is a vector of
/// length `cols` when `len == rows`; otherwise a mismatch.
pub proof fn law_vector_matrix_product_shape(
    m: Map<Seq<char>, ResolvedType>,
    a: SpecExpr,
    b: SpecExpr,
    e1: Box<ResolvedType>,
    len: usize,
    e2: Box<ResolvedType>,
    rows: usize,
    cols: usize,
)
    requires
        spec_infer(m, a) == Ok::<ResolvedType, SpecCheckError>(vector_type(e1, len)),
        spec_infer(m, b) == Ok::<ResolvedType, SpecCheckError>(matrix_type(e2, rows, cols)),
    ensures
        len == rows ==> spec_infer(m, binary_expr(BinaryOp::MatMul, a, b)) == Ok::<
            ResolvedType,
            SpecCheckError,
        >(vector_type(e2, cols)),
        len != rows ==> spec_infer(m, binary_expr(BinaryOp::MatMul, a, b)) == Err::<
            ResolvedType,
            SpecCheckError,
        >(SpecCheckError::VectorMatrixMismatch { len, rows, cols }),
{
}

/// Matrix addition and subtraction are element-wise: matrices of the same
/// dimensions give a matrix of those dimensions; others are rejected.
pub proof fn law_matrix_sum_shape(
    m: Map<Seq<char>, ResolvedType>,
    a: SpecExpr,
    b: SpecExpr,
    op: BinaryOp,
    e1: Box<ResolvedType>,
    r1: usize,
    c1: usize,
    e2: Box<ResolvedType>,
    r2: usize,
    c2: usize,
)
    requires
        op == BinaryOp::Add || op == BinaryOp::Sub,
        spec_infer(m, a) == Ok::<ResolvedType, SpecCheckError>(matrix_type(e1, r1, c1)),
        spec_infer(m, b) == Ok::<ResolvedType, SpecCheckError>(matrix_type(e2, r2, c2)),
    ensures
        r1 == r2 && c1 == c2 ==> spec_infer(m, binary_expr(op, a, b)) == Ok::<
            ResolvedType,
            SpecCheckError,
        >(matrix_type(e1, r1, c1)),
        !(r1 == r2 && c1 == c2) ==> spec_infer(m, binary_expr(op, a, b)) == Err::<
            ResolvedType,
            SpecCheckError,
        >(SpecCheckError::ElementwiseMatrixMismatch { r1, c1, r2, c2 }),
{
}

/// The element-wise operators `.+ .- .* ./` on matrices keep the dimensions
/// of equal-sized operands and reject others.
pub proof fn law_elementwise_matrix_shape(
    m: Map<Seq<char>, ResolvedType>,
    a: SpecExpr,
    b: SpecExpr,
    op: BinaryOp,
    e1: Box<ResolvedType>,
    r1: usize,
    c1: usize,
    e2: Box<ResolvedType>,
    r2: usize,
    c2: usize,
)
    requires
        op == BinaryOp::ElementAdd || op == BinaryOp::ElementSub || op == BinaryOp::ElementMul
            || op == BinaryOp::ElementDiv,
        spec_infer(m, a) == Ok::<ResolvedType, SpecCheckError>(matrix_type(e1, r1, c1)),
        spec_infer(m, b) == Ok::<ResolvedType, SpecCheckError>(matrix_type(e2, r2, c2)),
    ensures
        r1 == r2 && c1 == c2 ==> spec_infer(m, binary_expr(op, a, b)) == Ok::<
            ResolvedType,
            SpecCheckError,
        >(matrix_type(e1, r1, c1)),
        !(r1 == r2 && c1 == c2) ==> spec_infer(m, binary_expr(op, a, b)) == Err::<
            ResolvedType,
            SpecCheckError,
        >(SpecCheckError::MatrixDimensionsMismatch { r1, c1, r2, c2 }),
{
}

/// The element-wise operators on vectors keep the length of equal-length
/// operands and reject others.
pub proof fn law_elementwise_vector_shape(
    m: Map<Seq<char>, ResolvedType>,
    a: SpecExpr,
    b: SpecExpr,
    op: BinaryOp,
    e1: Box<ResolvedType>,
    l1: usize,
    e2: Box<ResolvedType>,
    l2: usize,
)
    requires
        op == BinaryOp::ElementAdd || op == BinaryOp::ElementSub || op == BinaryOp::ElementMul
            || op == BinaryOp::ElementDiv,
        spec_infer(m, a) == Ok::<ResolvedType, SpecCheckError>(vector_type(e1, l1)),
        spec_infer(m, b) == Ok::<ResolvedType, SpecCheckError>(vector_type(e2, l2)),
    ensures
        l1 == l2 ==> spec_infer(m, binary_expr(op, a, b)) == Ok::<ResolvedType, SpecCheckError>(
            vector_type(e1, l1),
        ),
        l1 != l2 ==> spec_infer(m, binary_expr(op, a, b)) == Err::<ResolvedType, SpecCheckError>(
            SpecCheckError::VectorLengthMismatch { l1, l2 },
        ),
{
}

/// A scalar combined with a vector or a matrix by `+ - * /`, on either side,
/// is broadcast: the result has the vector's or matrix's type.
pub proof fn law_scalar_broadcast(
    m: Map<Seq<char>, ResolvedType>,
    a: SpecExpr,
    s: SpecExpr,
    op: BinaryOp,
    t: ResolvedType,
)
    requires
        op == BinaryOp::Add || op == BinaryOp::Sub || op == BinaryOp::Mul || op == BinaryOp::Div,
        t is Vector || t is Matrix,
        spec_infer(m, a) == Ok::<ResolvedType, SpecCheckError>(t),
        spec_infer(m, s) == Ok::<ResolvedType, SpecCheckError>(ResolvedType::F64),
    ensures
        spec_infer(m, binary_expr(op, a, s)) == Ok::<ResolvedType, SpecCheckError>(t),
        spec_infer(m, binary_expr(op, s, a)) == Ok::<ResolvedType, SpecCheckError>(t),
{
}

/// `+ - * /` on two scalars is scalar arithmetic: each of the four operators
/// applied to two `f64` values gives an `f64`.
pub proof fn law_scalar_arithmetic_is_scalar(
    m: Map<Seq<char>, ResolvedType>,
    a: SpecExpr,
    b: SpecExpr,
    op: BinaryOp,
)
    requires
        op == BinaryOp::Add || op == BinaryOp::Sub || op == BinaryOp::Mul || op == BinaryOp::Div,
        spec_infer(m, a) == Ok::<ResolvedType, SpecCheckError>(ResolvedType::F64),
        spec_infer(m, b) == Ok::<ResolvedType, SpecCheckError>(ResolvedType::F64),
    ensures
        spec_infer(m, binary_expr(op, a, b)) == Ok::<ResolvedType, SpecCheckError>(
            ResolvedType::F64,
        ),
{
}

/// `+ - * /` accept two matrices (but not for `/`), an array with a scalar on
/// either side, and two scalars; every other pair of operand types, such as
/// a decimal literal, a call without a value, two vectors or a vector with a
/// matrix, is rejected as unsupported operands.
pub proof fn law_other_arithmetic_operands_rejected(
    m: Map<Seq<char>, ResolvedType>,
    a: SpecExpr,
    b: SpecExpr,
    op: BinaryOp,
    lt: ResolvedType,
    rt: ResolvedType,
)
    requires
        op == BinaryOp::Add || op == BinaryOp::Sub || op == BinaryOp::Mul || op == BinaryOp::Div,
        spec_infer(m, a) == Ok::<ResolvedType, SpecCheckError>(lt),
        spec_infer(m, b) == Ok::<ResolvedType, SpecCheckError>(rt),
        !(lt is Matrix && rt is Matrix && op != BinaryOp::Div),
        !((lt is Vector || lt is Matrix) && rt == ResolvedType::F64),
        !(lt == ResolvedType::F64 && (rt is Vector || rt is Matrix)),
        !(lt == ResolvedType::F64 && rt == ResolvedType::F64),
    ensures
        spec_infer(m, binary_expr(op, a, b)) == Err::<ResolvedType, SpecCheckError>(
            SpecCheckError::UnsupportedOperands,
        ),
{
}

/// `zeros(r, c)`, `random(r, c)` and `read_csv(r, c)` with number literals
/// give an `r`×`c` matrix of scalars; with other arguments they are rejected.
pub proof fn law_generator_shape(m: Map<Seq<char>, ResolvedType>, callee: Seq<char>, x: SpecExpr, y: SpecExpr)
    requires
        callee == "zeros"@ || callee == "random"@ || callee == "read_csv"@,
        m.contains_key(callee),
    ensures
        (x matches SpecExpr::Number(r) && y matches SpecExpr::Number(c)) ==> spec_infer(
            m,
            call_expr(callee, seq![x, y]),
        ) == Ok::<ResolvedType, SpecCheckError>(
            matrix_type(Box::new(ResolvedType::F64), literal_count(x->Number_0), literal_count(y->Number_0)),
        ),
        !(x is Number && y is Number) ==> spec_infer(m, call_expr(callee, seq![x, y])) == Err::<
            ResolvedType,
            SpecCheckError,
        >(SpecCheckError::GeneratorArguments(callee)),
{
    lemma_builtin_names();
    assert(seq![x, y][0] == x);
    assert(seq![x, y][1] == y);
}

/// `relu` and `sigmoid` apply element-wise: a matrix keeps its type.
pub proof fn law_activation_shape(
    m: Map<Seq<char>, ResolvedType>,
    callee: Seq<char>,
    a: SpecExpr,
    elem: Box<ResolvedType>,
    rows: usize,
    cols: usize,
)
    requires
        callee == "relu"@ || callee == "sigmoid"@,
        m.contains_key(callee),
        spec_infer(m, a) == Ok::<ResolvedType, SpecCheckError>(matrix_type(elem, rows, cols)),
    ensures
        spec_infer(m, call_expr(callee, seq![a])) == Ok::<ResolvedType, SpecCheckError>(
            matrix_type(elem, rows, cols),
        ),
{
    lemma_builtin_names();
    assert(seq![a][0] == a);
}

/// `mse_loss` of a prediction and a target matrix of the same dimensions is
/// a scalar; matrices of other dimensions are rejected.
pub proof fn law_loss_shape(
    m: Map<Seq<char>, ResolvedType>,
    p: SpecExpr,
    q: SpecExpr,
    e1: Box<ResolvedType>,
    r1: usize,
    c1: usize,
    e2: Box<ResolvedType>,
    r2: usize,
    c2: usize,
)
    requires
        m.contains_key("mse_loss"@),
        spec_infer(m, p) == Ok::<ResolvedType, SpecCheckError>(matrix_type(e1, r1, c1)),
        spec_infer(m, q) == Ok::<ResolvedType, SpecCheckError>(matrix_type(e2, r2, c2)),
    ensures
        r1 == r2 && c1 == c2 ==> spec_infer(m, call_expr("mse_loss"@, seq![p, q])) == Ok::<
            ResolvedType,
            SpecCheckError,
        >(ResolvedType::F64),
        !(r1 == r2 && c1 == c2) ==> spec_infer(m, call_expr("mse_loss"@, seq![p, q])) == Err::<
            ResolvedType,
            SpecCheckError,
        >(SpecCheckError::LossShapeMismatch { r1, c1, r2, c2 }),
{
    lemma_builtin_names();
    assert(seq![p, q][0] == p);
    assert(seq![p, q][1] == q);
}

/// `transpose` swaps the dimensions of a matrix, so transposing twice gives
/// back the type it started from.
pub proof fn law_transpose_shape(
    m: Map<Seq<char>, ResolvedType>,
    a: SpecExpr,
    elem: Box<ResolvedType>,
    rows: usize,
    cols: usize,
)
    requires
        m.contains_key("transpose"@),
        spec_infer(m, a) == Ok::<ResolvedType, SpecCheckError>(matrix_type(elem, rows, cols)),
    ensures
        spec_infer(m, call_expr("transpose"@, seq![a])) == Ok::<ResolvedType, SpecCheckError>(
            matrix_type(elem, cols, rows),
        ),
        spec_infer(m, call_expr("transpose"@, seq![call_expr("transpose"@, seq![a])])) == Ok::<
            ResolvedType,
            SpecCheckError,
        >(matrix_type(elem, rows, cols)),
{
    lemma_builtin_names();
    let inner = call_expr("transpose"@, seq![a]);
    lemma_builtin_names();
    assert(seq![a][0] == a);
    assert(seq![inner][0] == inner);
}

/// Slicing rows `r0..r1` and columns `c0..c1` of a `rows`×`cols` matrix
/// gives a `(r1 - r0)`×`(c1 - c0)` matrix when both ranges are non-empty and
/// within the matrix; an empty or reversed range, or one past the edge, is
/// rejected.
pub proof fn law_matrix_slice_shape(
    m: Map<Seq<char>, ResolvedType>,
    a: SpecExpr,
    elem: Box<ResolvedType>,
    rows: usize,
    cols: usize,
    r0: usize,
    r1: usize,
    c0: usize,
    c1: usize,
)
    requires
        spec_infer(m, a) == Ok::<ResolvedType, SpecCheckError>(matrix_type(elem, rows, cols)),
    ensures
        ({
            let e = SpecExpr::MatrixSlice {
                target: Box::new(a),
                r_start: r0,
                r_end: r1,
                c_start: c0,
                c_end: c1,
            };
            &&& (r0 < r1 && c0 < c1 && r1 <= rows && c1 <= cols) ==> spec_infer(m, e) == Ok::<
                ResolvedType,
                SpecCheckError,
            >(matrix_type(elem, (r1 - r0) as usize, (c1 - c0) as usize))
            &&& (r0 >= r1 || c0 >= c1) ==> spec_infer(m, e) == Err::<ResolvedType, SpecCheckError>(
                SpecCheckError::InvalidMatrixSliceRange,
            )
            &&& (r0 < r1 && c0 < c1 && (r1 > rows || c1 > cols)) ==> spec_infer(m, e) == Err::<
                ResolvedType,
                SpecCheckError,
            >(SpecCheckError::MatrixSliceOutOfBounds)
        }),
{
}

/// Slicing `start..end` of a vector of length `len` gives a vector of
/// length `end - start` when the range is non-empty and within the vector.
pub proof fn law_vector_slice_shape(
    m: Map<Seq<char>, ResolvedType>,
    a: SpecExpr,
    elem: Box<ResolvedType>,
    len: usize,
    start: usize,
    end: usize,
)
    requires
        spec_infer(m, a) == Ok::<ResolvedType, SpecCheckError>(vector_type(elem, len)),
    ensures
        ({
            let e = SpecExpr::Slice { target: Box::new(a), start, end };
            &&& (start < end && end <= len) ==> spec_infer(m, e) == Ok::<
                ResolvedType,
                SpecCheckError,
            >(vector_type(elem, (end - start) as usize))
            &&& start >= end ==> spec_infer(m, e) == Err::<ResolvedType, SpecCheckError>(
                SpecCheckError::InvalidSliceRange { start, end },
            )
            &&& (start < end && end > len) ==> spec_infer(m, e) == Err::<ResolvedType, SpecCheckError>(
                SpecCheckError::SliceOutOfBounds { end, len },
            )
        }),
{
}

/// No `let` of `stmts` binds a name of `m` or a name another `let` binds.
pub open spec fn lets_fresh(m: Map<Seq<char>, ResolvedType>, stmts: Seq<SpecStatement>) -> bool {
    &&& forall|i: int|
        0 <= i < stmts.len() && #[trigger] stmts[i] is Let ==> !m.contains_key(stmts[i]->Let_name)
    &&& forall|i: int, j: int|
        0 <= i < j < stmts.len() && #[trigger] stmts[i] is Let && #[trigger] stmts[j] is Let
            ==> stmts[i]->Let_name != stmts[j]->Let_name
}

/// Checking under a larger table gives the same type: names are only
/// looked up.
pub proof fn lemma_infer_monotone(m1: Map<Seq<char>, ResolvedType>, m2: Map<Seq<char>, ResolvedType>, e: SpecExpr)
    requires
        m1.submap_of(m2),
        spec_infer(m1, e) is Ok,
    ensures
        spec_infer(m2, e) == spec_infer(m1, e),
    decreases e,
{
    match e {
        SpecExpr::Variable(name) => {
            assert(m1.contains_key(name));
        },
        SpecExpr::Vector(elems) => {
            lemma_check_exprs_monotone(m1, m2, elems);
            if elems.len() > 0 {
                lemma_infer_monotone(m1, m2, elems[0]);
            }
        },
        SpecExpr::Matrix(rows) => {
            lemma_check_rows_monotone(m1, m2, rows);
            if rows.len() > 0 && rows[0].len() > 0 {
                lemma_infer_monotone(m1, m2, rows[0][0]);
            }
        },
        SpecExpr::Slice { target, .. } => lemma_infer_monotone(m1, m2, *target),
        SpecExpr::MatrixSlice { target, .. } => lemma_infer_monotone(m1, m2, *target),
        SpecExpr::Binary { left, right, .. } => {
            lemma_infer_monotone(m1, m2, *left);
            lemma_infer_monotone(m1, m2, *right);
        },
        SpecExpr::Call { callee, args } => {
            assert(m1.contains_key(callee));
            if args.len() > 0 {
                if spec_infer(m1, args[0]) is Ok {
                    lemma_infer_monotone(m1, m2, args[0]);
                }
            }
            if args.len() == 2 {
                if spec_infer(m1, args[1]) is Ok {
                    lemma_infer_monotone(m1, m2, args[1]);
                }
            }
        },
        _ => {},
    }
}

/// Expressions that check under a table check under any larger table.
pub proof fn lemma_check_exprs_monotone(
    m1: Map<Seq<char>, ResolvedType>,
    m2: Map<Seq<char>, ResolvedType>,
    s: Seq<SpecExpr>,
)
    requires
        m1.submap_of(m2),
        check_exprs(m1, s) is Ok,
    ensures
        check_exprs(m2, s) is Ok,
    decreases s,
{
    if s.len() > 0 {
        lemma_infer_monotone(m1, m2, s[0]);
        lemma_check_exprs_monotone(m1, m2, s.subrange(1, s.len() as int));
    }
}

/// Rows that check under a table check under any larger table.
pub proof fn lemma_check_rows_monotone(
    m1: Map<Seq<char>, ResolvedType>,
    m2: Map<Seq<char>, ResolvedType>,
    rows: Seq<Seq<SpecExpr>>,
)
    requires
        m1.submap_of(m2),
        check_rows(m1, rows) is Ok,
    ensures
        check_rows(m2, rows) is Ok,
    decreases rows,
{
    if rows.len() > 0 {
        lemma_check_exprs_monotone(m1, m2, rows[0]);
        lemma_check_rows_monotone(m1, m2, rows.subrange(1, rows.len() as int));
    }
}

/// The first error among the expressions of `s`, checked in order.
pub open spec fn check_exprs(m: Map<Seq<char>, ResolvedType>, s: Seq<SpecExpr>) -> Result<(), SpecCheckError>
    decreases s,
{
    if s.len() == 0 {
        Ok(())
    } else {
        match spec_infer(m, s[0]) {
            Ok(_) => check_exprs(m, s.subrange(1, s.len() as int)),
            Err(err) => Err(err),
        }
    }
}

/// The first error among the elements of the rows, row by row.
pub open spec fn check_rows(m: Map<Seq<char>, ResolvedType>, rows: Seq<Seq<SpecExpr>>) -> Result<(), SpecCheckError>
    decreases rows,
{
    if rows.len() == 0 {
        Ok(())
    } else {
        match check_exprs(m, rows[0]) {
            Ok(_) => check_rows(m, rows.subrange(1, rows.len() as int)),
            Err(err) => Err(err),
        }
    }
}

/// The table after checking `stmts` in order, starting from `m`: each `let`
/// binds its name to the type of its value.
pub open spec fn check_statements(m: Map<Seq<char>, ResolvedType>, stmts: Seq<SpecStatement>) -> Result<
    Map<Seq<char>, ResolvedType>,
    SpecCheckError,
>
    decreases stmts.len(),
{
    if stmts.len() == 0 {
        Ok(m)
    } else {
        match stmts[0] {
            SpecStatement::Let { name, value, .. } => match spec_infer(m, value) {
                Ok(t) => check_statements(m.insert(name, t), stmts.subrange(1, stmts.len() as int)),
                Err(e) => Err(e),
            },
            SpecStatement::Expression(e) => match spec_infer(m, e) {
                Ok(_) => check_statements(m, stmts.subrange(1, stmts.len() as int)),
                Err(err) => Err(err),
            },
        }
    }
}

/// The names the checker knows before any program: the built-in functions.
pub open spec fn builtin_table() -> Map<Seq<char>, ResolvedType> {
    map![
        "relu"@ => ResolvedType::Void,
        "print"@ => ResolvedType::Void,
        "transpose"@ => ResolvedType::Void,
        "zeros"@ => ResolvedType::Void,
        "random"@ => ResolvedType::Void,
        "sigmoid"@ => ResolvedType::Void,
        "mse_loss"@ => ResolvedType::Void,
        "read_csv"@ => ResolvedType::Void,
    ]
}

/// The map of the first `n` entries of a table, later entries winning.
pub open spec fn table_map(names: Seq<String>, types: Seq<ResolvedType>, n: int) -> Map<
    Seq<char>,
    ResolvedType,
>
    decreases n,
{
    if n <= 0 {
        Map::empty()
    } else {
        table_map(names, types, n - 1).insert(names[n - 1]@, types[n - 1])
    }
}

/// No name occurs twice among the first `n`.
pub open spec fn distinct_names(names: Seq<String>, n: int) -> bool {
    forall|i: int, j: int| 0 <= i < j < n ==> names[i]@ != names[j]@
}

proof fn lemma_table_map_lookup(names: Seq<String>, types: Seq<ResolvedType>, n: int)
    requires
        0 <= n <= names.len(),
        n <= types.len(),
        distinct_names(names, n),
    ensures
        forall|i: int| 0 <= i < n ==> #[trigger] table_map(names, types, n).contains_key(names[i]@)
            && table_map(names, types, n)[names[i]@] == types[i],
        forall|k: Seq<char>| #[trigger]
            table_map(names, types, n).contains_key(k) ==> exists|i: int|
                0 <= i < n && names[i]@ == k,
    decreases n,
{
    if n > 0 {
        lemma_table_map_lookup(names, types, n - 1);
        let m = table_map(names, types, n);
        assert forall|i: int| 0 <= i < n implies #[trigger] m.contains_key(names[i]@) && m[names[i]@]
            == types[i] by {
            if i < n - 1 {
                assert(names[i]@ != names[n - 1]@);
                assert(table_map(names, types, n - 1).contains_key(names[i]@));
            }
        }
        assert forall|k: Seq<char>| #[trigger] m.contains_key(k) implies exists|i: int|
            0 <= i < n && names[i]@ == k by {
            if k != names[n - 1]@ {
                assert(table_map(names, types, n - 1).contains_key(k));
            } else {
                assert(names[n - 1]@ == k);
            }
        }
    }
}

proof fn lemma_table_map_same(names: Seq<String>, t1: Seq<ResolvedType>, t2: Seq<ResolvedType>, n: int)
    requires
        0 <= n <= t1.len(),
        n <= t2.len(),
        forall|j: int| 0 <= j < n ==> t1[j] == t2[j],
    ensures
        table_map(names, t1, n) == table_map(names, t2, n),
    decreases n,
{
    if n > 0 {
        lemma_table_map_same(names, t1, t2, n - 1);
    }
}

proof fn lemma_table_map_update(
    names: Seq<String>,
    types: Seq<ResolvedType>,
    n: int,
    i: int,
    t: ResolvedType,
)
    requires
        0 <= i < n <= names.len(),
        n <= types.len(),
        distinct_names(names, n),
    ensures
        table_map(names, types.update(i, t), n) == table_map(names, types, n).insert(names[i]@, t),
    decreases n,
{
    let types2 = types.update(i, t);
    if n - 1 == i {
        lemma_table_map_same(names, types, types2, n - 1);
        assert(table_map(names, types2, n) =~= table_map(names, types, n).insert(names[i]@, t));
    } else {
        lemma_table_map_update(names, types, n - 1, i, t);
        assert(names[i]@ != names[n - 1]@);
        assert(table_map(names, types2, n) =~= table_map(names, types, n).insert(names[i]@, t));
    }
}

/// The type checker: the table of named values and their types.
pub struct TypeChecker {
    names: Vec<String>,
    types: Vec<ResolvedType>,
}

impl View for TypeChecker {
    type V = Map<Seq<char>, ResolvedType>;

    closed spec fn view(&self) -> Map<Seq<char>, ResolvedType> {
        table_map(self.names@, self.types@, self.names@.len() as int)
    }
}

impl TypeChecker {
    /// The table is well formed: a type for each name, no name twice.
    closed spec fn table_wf(&self) -> bool {
        &&& self.names@.len() == self.types@.len()
        &&& distinct_names(self.names@, self.names@.len() as int)
    }

    /// The checker is well formed: its table is, and it knows the built-in
    /// functions.
    pub closed spec fn wf(&self) -> bool {
        &&& self.table_wf()
        &&& forall|k: Seq<char>| #[trigger] builtin_table().contains_key(k) ==> self@.contains_key(k)
    }

    /// A well-formed checker knows every built-in function.
    pub proof fn lemma_knows_builtins(&self)
        requires
            self.wf(),
        ensures
            forall|k: Seq<char>| #[trigger] builtin_table().contains_key(k) ==> self@.contains_key(k),
    {
    }

    /// A checker that knows the built-in functions.
    pub fn new() -> (c: Self)
        ensures
            c.wf(),
            c@ == builtin_table(),
    {
        let mut c = TypeChecker { names: Vec::new(), types: Vec::new() };
        c.declare(String::from_str("relu"), ResolvedType::Void);
        c.declare(String::from_str("print"), ResolvedType::Void);
        c.declare(String::from_str("transpose"), ResolvedType::Void);
        c.declare(String::from_str("zeros"), ResolvedType::Void);
        c.declare(String::from_str("random"), ResolvedType::Void);
        c.declare(String::from_str("sigmoid"), ResolvedType::Void);
        c.declare(String::from_str("mse_loss"), ResolvedType::Void);
        c.declare(String::from_str("read_csv"), ResolvedType::Void);
        assert(c@ =~= builtin_table());
        c
    }

    /// Binds `name` to `t`, replacing an earlier binding of that name.
    fn declare(&mut self, name: String, t: ResolvedType)
        requires
            old(self).table_wf(),
        ensures
            final(self).table_wf(),
            final(self)@ == old(self)@.insert(name@, t),
    {
        proof {
            lemma_table_map_lookup(self.names@, self.types@, self.names@.len() as int);
        }
        let n = self.names.len();
        let mut i: usize = 0;
        while i < n
            invariant
                n == self.names@.len(),
                n == self.types@.len(),
                *self == *old(self),
                old(self).table_wf(),
                i <= n,
                forall|j: int| 0 <= j < i ==> self.names@[j]@ != name@,
            decreases n - i,
        {
            if self.names[i] == name {
                proof {
                    lemma_table_map_update(self.names@, self.types@, n as int, i as int, t);
                }
                self.types.set(i, t);
                return;
            }
            i = i + 1;
        }
        let ghost old_names = self.names@;
        let ghost old_types = self.types@;
        self.names.push(name);
        self.types.push(t);
        proof {
            lemma_table_map_same(self.names@, old_types, self.types@, n as int);
            assert forall|a: int, b: int| 0 <= a < b < n + 1 implies self.names@[a]@
                != self.names@[b]@ by {
                if b == n {
                    assert(self.names@[a] == old_names[a]);
                }
            }
            assert(table_map(self.names@, old_types, n as int) =~= table_map(
                old_names,
                old_types,
                n as int,
            )) by {
                assert forall|j: int| 0 <= j < n implies self.names@[j] == old_names[j] by {}
                lemma_table_map_names_same(old_names, self.names@, old_types, n as int);
            }
        }
    }

    /// The type bound to `name`, if any.
    fn lookup(&self, name: &String) -> (r: Option<ResolvedType>)
        requires
            self.wf(),
        ensures
            r == (if self@.contains_key(name@) {
                Some(self@[name@])
            } else {
                None::<ResolvedType>
            }),
    {
        proof {
            lemma_table_map_lookup(self.names@, self.types@, self.names@.len() as int);
        }
        let n = self.names.len();
        let mut i: usize = 0;
        while i < n
            invariant
                n == self.names@.len(),
                n == self.types@.len(),
                self.wf(),
                i <= n,
                forall|j: int| 0 <= j < i ==> self.names@[j]@ != name@,
            decreases n - i,
        {
            if self.names[i] == *name {
                proof {
                    lemma_table_map_lookup(self.names@, self.types@, n as int);
                }
                return Some(self.types[i].duplicate());
            }
            i = i + 1;
        }
        proof {
            lemma_table_map_lookup(self.names@, self.types@, n as int);
        }
        None
    }
}

/// The type a binary operator gives to operands of types `l` and `r`.
fn binary_result_type(op: BinaryOp, l: ResolvedType, r: ResolvedType) -> (res: Result<
    ResolvedType,
    CheckError,
>)
    ensures
        type_result(res) == binary_type(op, l, r),
{
    match op {
        BinaryOp::MatMul => match (l, r) {
            (ResolvedType::Vector { len, .. }, ResolvedType::Matrix { elem, rows, cols }) => {
                if len != rows {
                    Err(CheckError::VectorMatrixMismatch { len, rows, cols })
                } else {
                    Ok(ResolvedType::Vector { elem, len: cols })
                }
            },
            (
                ResolvedType::Matrix { elem, rows: r1, cols: c1 },
                ResolvedType::Matrix { rows: r2, cols: c2, .. },
            ) => {
                if c1 != r2 {
                    Err(CheckError::MatMulMismatch { r1, c1, r2, c2 })
                } else {
                    Ok(ResolvedType::Matrix { elem, rows: r1, cols: c2 })
                }
            },
            _ => Err(CheckError::InvalidMatMulOperands),
        },
        BinaryOp::Pipe => Ok(l),
        BinaryOp::Add | BinaryOp::Sub | BinaryOp::Mul | BinaryOp::Div => match (l, r) {
            (
                ResolvedType::Matrix { elem, rows: r1, cols: c1 },
                ResolvedType::Matrix { rows: r2, cols: c2, .. },
            ) => {
                if matches!(op, BinaryOp::Mul) {
                    if c1 != r2 {
                        Err(CheckError::MatMulMismatch { r1, c1, r2, c2 })
                    } else {
                        Ok(ResolvedType::Matrix { elem, rows: r1, cols: c2 })
                    }
                } else if matches!(op, BinaryOp::Add | BinaryOp::Sub) {
                    if r1 != r2 || c1 != c2 {
                        Err(CheckError::ElementwiseMatrixMismatch { r1, c1, r2, c2 })
                    } else {
                        Ok(ResolvedType::Matrix { elem, rows: r1, cols: c1 })
                    }
                } else {
                    Err(CheckError::UnsupportedOperands)
                }
            },
            (ResolvedType::Vector { elem, len }, ResolvedType::F64) => Ok(
                ResolvedType::Vector { elem, len },
            ),
            (ResolvedType::F64, ResolvedType::Vector { elem, len }) => Ok(
                ResolvedType::Vector { elem, len },
            ),
            (ResolvedType::Matrix { elem, rows, cols }, ResolvedType::F64) => Ok(
                ResolvedType::Matrix { elem, rows, cols },
            ),
            (ResolvedType::F64, ResolvedType::Matrix { elem, rows, cols }) => Ok(
                ResolvedType::Matrix { elem, rows, cols },
            ),
            (ResolvedType::F64, ResolvedType::F64) => Ok(ResolvedType::F64),
            _ => Err(CheckError::UnsupportedOperands),
        },
        BinaryOp::ElementMul | BinaryOp::ElementDiv | BinaryOp::ElementAdd | BinaryOp::ElementSub =>
            match (l, r) {
            (ResolvedType::Vector { elem, len: l1 }, ResolvedType::Vector { len: l2, .. }) => {
                if l1 != l2 {
                    Err(CheckError::VectorLengthMismatch { l1, l2 })
                } else {
                    Ok(ResolvedType::Vector { elem, len: l1 })
                }
            },
            (
                ResolvedType::Matrix { elem, rows: r1, cols: c1 },
                ResolvedType::Matrix { rows: r2, cols: c2, .. },
            ) => {
                if r1 != r2 || c1 != c2 {
                    Err(CheckError::MatrixDimensionsMismatch { r1, c1, r2, c2 })
                } else {
                    Ok(ResolvedType::Matrix { elem, rows: r1, cols: c1 })
                }
            },
            _ => Err(CheckError::InvalidElementwiseOperands),
        },
    }
}

impl TypeChecker {
    /// The type of `expr`, or the error that checking it stops at.
    pub fn try_infer_expression_type(&self, expr: &Expr) -> (r: Result<ResolvedType, CheckError>)
        requires
            self.wf(),
        ensures
            type_result(r) == spec_infer(self@, expr@),
        decreases expr,
    {
        match expr {
            Expr::Number(_) => Ok(ResolvedType::F64),
            Expr::Decimal(_) => Ok(ResolvedType::Dec),
            Expr::Variable(name) => match self.lookup(name) {
                Some(t) => Ok(t),
                None => Err(CheckError::UndefinedVariable(name.clone())),
            },
            Expr::Vector(elems) => {
                proof {
                    lemma_exprs_model_index(elems@);
                }
                match self.check_elements(elems) {
                    Ok(()) => {},
                    Err(e) => return Err(e),
                }
                let len = elems.len();
                if len > 0 {
                    match self.try_infer_expression_type(&elems[0]) {
                        Ok(t) => Ok(ResolvedType::Vector { elem: Box::new(t), len }),
                        Err(e) => Err(e),
                    }
                } else {
                    Ok(ResolvedType::Vector { elem: Box::new(ResolvedType::F64), len })
                }
            },
            Expr::Matrix(rows) => {
                proof {
                    lemma_rows_model_index(rows@);
                    if rows@.len() > 0 {
                        lemma_exprs_model_index(rows@[0]@);
                    }
                }
                match self.check_rows(rows) {
                    Ok(()) => {},
                    Err(e) => return Err(e),
                }
                let row_cnt = rows.len();
                let col_cnt = if row_cnt > 0 {
                    rows[0].len()
                } else {
                    0
                };
                if row_cnt > 0 && col_cnt > 0 {
                    match self.try_infer_expression_type(&rows[0][0]) {
                        Ok(t) => Ok(ResolvedType::Matrix { elem: Box::new(t), rows: row_cnt, cols: col_cnt }),
                        Err(e) => Err(e),
                    }
                } else {
                    Ok(ResolvedType::Matrix { elem: Box::new(ResolvedType::F64), rows: row_cnt, cols: col_cnt })
                }
            },
            Expr::Slice { target, start, end } => {
                let target_ty = match self.try_infer_expression_type(target) {
                    Ok(t) => t,
                    Err(e) => return Err(e),
                };
                if *start >= *end {
                    return Err(CheckError::InvalidSliceRange { start: *start, end: *end });
                }
                let slice_len = *end - *start;
                match target_ty {
                    ResolvedType::Vector { len, elem } => {
                        if *end > len {
                            Err(CheckError::SliceOutOfBounds { end: *end, len })
                        } else {
                            Ok(ResolvedType::Vector { elem, len: slice_len })
                        }
                    },
                    _ => Err(CheckError::SliceOfNonVector),
                }
            },
            Expr::MatrixSlice { target, r_start, r_end, c_start, c_end } => {
                let target_ty = match self.try_infer_expression_type(target) {
                    Ok(t) => t,
                    Err(e) => return Err(e),
                };
                if *r_start >= *r_end || *c_start >= *c_end {
                    return Err(CheckError::InvalidMatrixSliceRange);
                }
                let out_rows = *r_end - *r_start;
                let out_cols = *c_end - *c_start;
                match target_ty {
                    ResolvedType::Matrix { rows, cols, elem } => {
                        if *r_end > rows || *c_end > cols {
                            Err(CheckError::MatrixSliceOutOfBounds)
                        } else {
                            Ok(ResolvedType::Matrix { elem, rows: out_rows, cols: out_cols })
                        }
                    },
                    _ => Err(CheckError::MatrixSliceOfNonMatrix),
                }
            },
            Expr::Binary { op, left, right } => {
                let left_ty = match self.try_infer_expression_type(left) {
                    Ok(t) => t,
                    Err(e) => return Err(e),
                };
                let right_ty = match self.try_infer_expression_type(right) {
                    Ok(t) => t,
                    Err(e) => return Err(e),
                };
                binary_result_type(*op, left_ty, right_ty)
            },
            Expr::Call { callee, args } => {
                proof {
                    lemma_exprs_model_index(args@);
                }
                if self.lookup(callee).is_none() {
                    return Err(CheckError::UndefinedFunction(callee.clone()));
                }
                if text_is(callee, "print") && args.len() > 0 {
                    return self.try_infer_expression_type(&args[0]);
                }
                if text_is(callee, "transpose") && args.len() > 0 {
                    return match self.try_infer_expression_type(&args[0]) {
                        Ok(ResolvedType::Matrix { elem, rows, cols }) => Ok(
                            ResolvedType::Matrix { elem, rows: cols, cols: rows },
                        ),
                        Ok(_) => Err(CheckError::TransposeOfNonMatrix),
                        Err(e) => Err(e),
                    };
                }
                if (text_is(callee, "zeros") || text_is(callee, "random") || text_is(
                    callee,
                    "read_csv",
                )) && args.len() == 2 {
                    return match (&args[0], &args[1]) {
                        (Expr::Number(r), Expr::Number(c)) => Ok(
                            ResolvedType::Matrix {
                                elem: Box::new(ResolvedType::F64),
                                rows: literal_to_usize(r),
                                cols: literal_to_usize(c),
                            },
                        ),
                        _ => Err(CheckError::GeneratorArguments(callee.clone())),
                    };
                }
                if (text_is(callee, "relu") || text_is(callee, "sigmoid")) && args.len() > 0 {
                    return match self.try_infer_expression_type(&args[0]) {
                        Ok(ResolvedType::Matrix { elem, rows, cols }) => Ok(
                            ResolvedType::Matrix { elem, rows, cols },
                        ),
                        Ok(_) => Ok(ResolvedType::Void),
                        Err(e) => Err(e),
                    };
                }
                if text_is(callee, "mse_loss") && args.len() == 2 {
                    let pred_ty = match self.try_infer_expression_type(&args[0]) {
                        Ok(t) => t,
                        Err(e) => return Err(e),
                    };
                    let target_ty = match self.try_infer_expression_type(&args[1]) {
                        Ok(t) => t,
                        Err(e) => return Err(e),
                    };
                    return match (pred_ty, target_ty) {
                        (
                            ResolvedType::Matrix { rows: r1, cols: c1, .. },
                            ResolvedType::Matrix { rows: r2, cols: c2, .. },
                        ) => {
                            if r1 == r2 && c1 == c2 {
                                Ok(ResolvedType::F64)
                            } else {
                                Err(CheckError::LossShapeMismatch { r1, c1, r2, c2 })
                            }
                        },
                        _ => Ok(ResolvedType::Void),
                    };
                }
                Ok(ResolvedType::Void)
            },
        }
    }

    /// Checks each expression of `elems` in order; the first error, if any.
    fn check_elements(&self, elems: &Vec<Expr>) -> (r: Result<(), CheckError>)
        requires
            self.wf(),
        ensures
            match check_exprs(self@, exprs_model(elems@)) {
                Ok(_) => r is Ok,
                Err(e) => r matches Err(x) && x@ == e,
            },
        decreases elems,
    {
        let ghost m = self@;
        let ghost em = exprs_model(elems@);
        proof {
            lemma_exprs_model_index(elems@);
        }
        let len = elems.len();
        let mut i: usize = 0;
        assert(em.subrange(0, len as int) =~= em);
        while i < len
            invariant
                self.wf(),
                m == self@,
                len == elems@.len(),
                em == exprs_model(elems@),
                em.len() == len,
                forall|j: int| 0 <= j < len ==> #[trigger] em[j] == elems@[j]@,
                i <= len,
                check_exprs(m, em.subrange(i as int, len as int)) == check_exprs(m, em),
            decreases len - i,
        {
            let ghost suffix = em.subrange(i as int, len as int);
            assert(suffix[0] == em[i as int]);
            assert(suffix.subrange(1, suffix.len() as int) =~= em.subrange(i + 1, len as int));
            match self.try_infer_expression_type(&elems[i]) {
                Ok(_) => {},
                Err(e) => return Err(e),
            }
            i = i + 1;
        }
        Ok(())
    }

    /// Checks the elements of each row in order; the first error, if any.
    fn check_rows(&self, rows: &Vec<Vec<Expr>>) -> (r: Result<(), CheckError>)
        requires
            self.wf(),
        ensures
            match check_rows(self@, rows_model(rows@)) {
                Ok(_) => r is Ok,
                Err(e) => r matches Err(x) && x@ == e,
            },
        decreases rows,
    {
        let ghost m = self@;
        let ghost rm = rows_model(rows@);
        proof {
            lemma_rows_model_index(rows@);
        }
        let len = rows.len();
        let mut i: usize = 0;
        assert(rm.subrange(0, len as int) =~= rm);
        while i < len
            invariant
                self.wf(),
                m == self@,
                len == rows@.len(),
                rm == rows_model(rows@),
                rm.len() == len,
                forall|j: int| 0 <= j < len ==> #[trigger] rm[j] == exprs_model(rows@[j]@),
                i <= len,
                check_rows(m, rm.subrange(i as int, len as int)) == check_rows(m, rm),
            decreases len - i,
        {
            let ghost suffix = rm.subrange(i as int, len as int);
            assert(suffix[0] == rm[i as int]);
            assert(suffix.subrange(1, suffix.len() as int) =~= rm.subrange(i + 1, len as int));
            match self.check_elements(&rows[i]) {
                Ok(()) => {},
                Err(e) => return Err(e),
            }
            i = i + 1;
        }
        Ok(())
    }

    /// The type of `expr`, on an expression that checks.
    pub fn infer_expression_type(&self, expr: &Expr) -> (t: ResolvedType)
        requires
            self.wf(),
            spec_infer(self@, expr@) is Ok,
        ensures
            spec_infer(self@, expr@) == Ok::<ResolvedType, SpecCheckError>(t),
    {
        match self.try_infer_expression_type(expr) {
            Ok(t) => t,
            Err(_) => {
                proof {
                    assert(false);
                }
                ResolvedType::Void
            },
        }
    }

    fn check_statement(&mut self, stmt: &Statement) -> (r: Result<(), CheckError>)
        requires
            old(self).wf(),
        ensures
            final(self).wf(),
            match stmt@ {
                SpecStatement::Let { name, value, .. } => match spec_infer(old(self)@, value) {
                    Ok(t) => r is Ok && final(self)@ == old(self)@.insert(name, t),
                    Err(e) => r matches Err(x) && x@ == e,
                },
                SpecStatement::Expression(e) => match spec_infer(old(self)@, e) {
                    Ok(_) => r is Ok && final(self)@ == old(self)@,
                    Err(err) => r matches Err(x) && x@ == err,
                },
            },
    {
        match stmt {
            Statement::Let { name, ty: _, value } => {
                let resolved = match self.try_infer_expression_type(value) {
                    Ok(t) => t,
                    Err(e) => return Err(e),
                };
                self.declare(name.clone(), resolved);
                Ok(())
            },
            Statement::Expression(expr) => {
                match self.try_infer_expression_type(expr) {
                    Ok(_) => Ok(()),
                    Err(e) => Err(e),
                }
            },
        }
    }

    /// Checks the statements of `program` in order, binding each `let`
    /// name to the type of its value; stops at the first error.
    pub fn try_check_program(&mut self, program: &Program) -> (r: Result<(), CheckError>)
        requires
            old(self).wf(),
        ensures
            final(self).wf(),
            match check_statements(old(self)@, program@) {
                Ok(m) => r is Ok && final(self)@ == m,
                Err(e) => r matches Err(x) && x@ == e,
            },
    {
        let ghost stmts = program@;
        let n = program.statements.len();
        let mut i: usize = 0;
        assert(stmts.subrange(0, n as int) =~= stmts);
        while i < n
            invariant
                self.wf(),
                n == program.statements@.len(),
                stmts == program@,
                stmts.len() == n,
                i <= n,
                check_statements(self@, stmts.subrange(i as int, n as int)) == check_statements(
                    old(self)@,
                    stmts,
                ),
            decreases n - i,
        {
            let ghost rest = stmts.subrange(i as int, n as int);
            assert(rest[0] == program.statements@[i as int]@);
            assert(rest.subrange(1, rest.len() as int) =~= stmts.subrange(i + 1, n as int));
            match self.check_statement(&program.statements[i]) {
                Ok(()) => {},
                Err(e) => return Err(e),
            }
            i = i + 1;
        }
        assert(stmts.subrange(n as int, n as int) =~= seq![]);
        Ok(())
    }

    /// Checks `program`, on a program that checks.
    pub fn check_program(&mut self, program: &Program)
        requires
            old(self).wf(),
            check_statements(old(self)@, program@) is Ok,
        ensures
            final(self).wf(),
            check_statements(old(self)@, program@) == Ok::<
                Map<Seq<char>, ResolvedType>,
                SpecCheckError,
            >(final(self)@),
    {
        match self.try_check_program(program) {
            Ok(()) => {},
            Err(_) => {
                proof {
                    assert(false);
                }
            },
        }
    }
}

proof fn lemma_table_map_names_same(
    n1: Seq<String>,
    n2: Seq<String>,
    types: Seq<ResolvedType>,
    n: int,
)
    requires
        0 <= n <= n1.len(),
        n <= n2.len(),
        forall|j: int| 0 <= j < n ==> n1[j] == n2[j],
    ensures
        table_map(n1, types, n) == table_map(n2, types, n),
    decreases n,
{
    if n > 0 {
        lemma_table_map_names_same(n1, n2, types, n - 1);
    }
}

} // verus!
