//! What the C code generator writes: the runtime helpers, then `main` with
//! the code of each statement.
use vstd::prelude::*;
use crate::ast::{BinaryOp, SpecExpr, SpecStatement};
use crate::checker::{
    binary_expr, call_expr, check_exprs, check_rows, check_statements, lemma_builtin_names,
    lemma_infer_monotone, lets_fresh, spec_infer, ResolvedType, SpecCheckError,
};
use crate::chars::{digit_char, nat_text};
use crate::numbers::{literal_count, number_text};

verus! {

/// The start of every generated C file: the includes, the runtime helpers
/// for matrix operations, activations, loss, CSV loading, slicing, and the
/// opening of `main`.
pub const PRELUDE: &'static str = "#include <stdio.h>
#include <stdlib.h>
#include <string.h>
#include <math.h>
#include <time.h>

// QLang C Runtime Helpers
void print_vector(const double* v, int len) {
    printf(\"[\");
    for(int i = 0; i < len; i++) {
        printf(\"%.2f%s\", v[i], (i == len - 1) ? \"\" : \", \");
    }
    printf(\"]\\n\");
}

void print_matrix(const double* m, int rows, int cols) {
    printf(\"[\\n\");
    for(int r = 0; r < rows; r++) {
        printf(\"  [\");
        for(int c = 0; c < cols; c++) {
            printf(\"%.2f%s\", m[r * cols + c], (c == cols - 1) ? \"\" : \", \");
        }
        printf(\"]\\n\");
    }
    printf(\"]\\n\");
}

void read_csv_file(double* out, int rows, int cols, const char* filename) {
    FILE* f = fopen(filename, \"r\");
    if(!f) { printf(\"[RUNTIME ERROR] Failed to open CSV file: %s\\n\", filename); exit(1); }
    char line[1024];
    int r = 0;
    while(fgets(line, sizeof(line), f) && r < rows) {
        char* tok = strtok(line, \",\");
        int c = 0;
        while(tok && c < cols) {
            out[r * cols + c] = atof(tok);
            tok = strtok(NULL, \",\");
            c++;
        }
        r++;
    }
    fclose(f);
}

void mat_zeros(double* out, int size) {
    for(int i = 0; i < size; i++) out[i] = 0.0;
}

void mat_random(double* out, int size) {
    for(int i = 0; i < size; i++) out[i] = (double)rand() / (double)RAND_MAX;
}

void mat_relu(double* out, const double* in, int size) {
    for(int i = 0; i < size; i++) out[i] = (in[i] < 0.0) ? 0.0 : in[i];
}

void mat_sigmoid(double* out, const double* in, int size) {
    for(int i = 0; i < size; i++) out[i] = 1.0 / (1.0 + exp(-in[i]));
}

double mat_mse_loss(const double* pred, const double* target, int size) {
    double sum = 0.0;
    for(int i = 0; i < size; i++) {
        double diff = pred[i] - target[i];
        sum += diff * diff;
    }
    return sum / (double)size;
}

void vec_mat_mul(double* out, const double* v, const double* m, int v_len, int m_cols) {
    for(int j = 0; j < m_cols; j++) {
        out[j] = 0.0;
        for(int i = 0; i < v_len; i++) {
            out[j] += v[i] * m[i * m_cols + j];
        }
    }
}

void mat_mat_mul(double* out, const double* a, const double* b, int m, int n, int p) {
    for(int i = 0; i < m; i++) {
        for(int j = 0; j < p; j++) {
            out[i * p + j] = 0.0;
            for(int k = 0; k < n; k++) {
                out[i * p + j] += a[i * n + k] * b[k * p + j];
            }
        }
    }
}

void vec_relu(double* v, int len) {
    for(int i = 0; i < len; i++) {
        if(v[i] < 0.0) v[i] = 0.0;
    }
}

void vec_elem_op(double* out, const double* a, const double* b, int len, char op) {
    for(int i = 0; i < len; i++) {
        switch(op) {
            case '*': out[i] = a[i] * b[i]; break;
            case '/': out[i] = a[i] / b[i]; break;
            case '+': out[i] = a[i] + b[i]; break;
            case '-': out[i] = a[i] - b[i]; break;
        }
    }
}

void vec_slice(double* out, const double* in, int start, int end) {
    int idx = 0;
    for(int i = start; i < end; i++) {
        out[idx++] = in[i];
    }
}

void mat_slice(double* out, const double* in, int in_cols, int r_start, int r_end, int c_start, int c_end) {
    int idx = 0;
    for(int r = r_start; r < r_end; r++) {
        for(int c = c_start; c < c_end; c++) {
            out[idx++] = in[r * in_cols + c];
        }
    }
}

void mat_transpose(double* out, const double* in, int rows, int cols) {
    for(int r = 0; r < rows; r++) {
        for(int c = 0; c < cols; c++) {
            out[c * rows + r] = in[r * cols + c];
        }
    }
}

void vec_broadcast_op(double* out, const double* v, double s, int len, char op, int scalar_first) {
    for(int i = 0; i < len; i++) {
        double a = scalar_first ? s : v[i];
        double b = scalar_first ? v[i] : s;
        switch(op) {
            case '+': out[i] = a + b; break;
            case '-': out[i] = a - b; break;
            case '*': out[i] = a * b; break;
            case '/': out[i] = a / b; break;
        }
    }
}

int main() {
    srand(12345);
";

/// The end of every generated C file.
pub const EPILOGUE: &'static str = "    return 0;
}
";

/// Why code generation stopped.
pub enum SpecGenError {
    Check(SpecCheckError),
    SizeOverflow,
    ExpectedMatrixForSlice,
    UnsupportedMatMul,
    ElementwiseNonArray,
}

/// Generated code so far, the C expression for the value, and the temporary
/// counter after it; or the error.
pub type Generated = Result<(Seq<char>, Seq<char>, nat), SpecGenError>;

/// The name of the `k`-th temporary: `t1`, `t2`, ...
pub open spec fn temp_name(k: nat) -> Seq<char> {
    seq!['t'] + nat_text(k)
}

/// The counter after taking one more temporary, if it still fits.
pub open spec fn fresh(n: nat) -> Result<nat, SpecGenError> {
    if n + 1 <= usize::MAX {
        Ok(n + 1)
    } else {
        Err(SpecGenError::SizeOverflow)
    }
}

/// The product of two sizes, if it fits in a `usize`.
pub open spec fn product(a: usize, b: usize) -> Result<nat, SpecGenError> {
    if a * b <= usize::MAX {
        Ok((a * b) as nat)
    } else {
        Err(SpecGenError::SizeOverflow)
    }
}

/// `a - b`, if it is not negative.
pub open spec fn difference(a: usize, b: usize) -> Result<nat, SpecGenError> {
    if b <= a {
        Ok((a - b) as nat)
    } else {
        Err(SpecGenError::SizeOverflow)
    }
}

/// `a, b, c`: texts joined by `, `.
pub open spec fn comma_list(s: Seq<Seq<char>>) -> Seq<char>
    decreases s.len(),
{
    if s.len() == 0 {
        seq![]
    } else if s.len() == 1 {
        s[0]
    } else {
        comma_list(s.drop_last()) + ", "@ + s.last()
    }
}

/// The statement `    f(a, b, ...);` and a line break.
pub open spec fn call_line(f: Seq<char>, args: Seq<Seq<char>>) -> Seq<char> {
    "    "@ + f + "("@ + comma_list(args) + ");\n"@
}

/// The declaration `    double name[size] = {0};` and a line break.
pub open spec fn zeroed_array(name: Seq<char>, size: nat) -> Seq<char> {
    "    double "@ + name + "["@ + nat_text(size) + "] = {0};\n"@
}

/// The C character literal of an operator character.
pub open spec fn char_literal(c: char) -> Seq<char> {
    seq!['\'', c, '\'']
}

/// The operator character of an arithmetic operator.
pub open spec fn op_char(op: BinaryOp) -> char {
    match op {
        BinaryOp::Add | BinaryOp::ElementAdd => '+',
        BinaryOp::Sub | BinaryOp::ElementSub => '-',
        BinaryOp::Mul | BinaryOp::ElementMul => '*',
        _ => '/',
    }
}

/// The type of `e`, with a checking error turned into a generation error.
pub open spec fn type_of(m: Map<Seq<char>, ResolvedType>, e: SpecExpr) -> Result<
    ResolvedType,
    SpecGenError,
> {
    match spec_infer(m, e) {
        Ok(t) => Ok(t),
        Err(err) => Err(SpecGenError::Check(err)),
    }
}

/// A whole-matrix operation `f(temp, a, total)` into a fresh array: the code
/// and the temporary, for a matrix of `rows` by `cols`.
pub open spec fn matrix_op(
    code: Seq<char>,
    f: Seq<char>,
    arg: Seq<char>,
    rows: usize,
    cols: usize,
    n: nat,
) -> Generated {
    match product(rows, cols) {
        Ok(total) => match fresh(n) {
            Ok(n1) => {
                let t = temp_name(n1);
                Ok(
                    (
                        code + zeroed_array(t, total) + call_line(f, seq![t, arg, nat_text(total)]),
                        t,
                        n1,
                    ),
                )
            },
            Err(e) => Err(e),
        },
        Err(e) => Err(e),
    }
}

/// A generator `f(temp, total)` of a `rows` by `cols` matrix into a fresh array.
pub open spec fn generator_op(f: Seq<char>, rows: usize, cols: usize, n: nat) -> Generated {
    match product(rows, cols) {
        Ok(total) => match fresh(n) {
            Ok(n1) => {
                let t = temp_name(n1);
                Ok((zeroed_array(t, total) + call_line(f, seq![t, nat_text(total)]), t, n1))
            },
            Err(e) => Err(e),
        },
        Err(e) => Err(e),
    }
}

/// The code and C value of expression `e`, with temporaries numbered after
/// `n`, when the named values have the types in `m`.
pub open spec fn gen_expr(m: Map<Seq<char>, ResolvedType>, e: SpecExpr, n: nat) -> Generated
    decreases e,
{
    match e {
        SpecExpr::Number(t) => Ok((seq![], number_text(t), n)),
        SpecExpr::Decimal(d) => Ok((seq![], d, n)),
        SpecExpr::Variable(v) => Ok((seq![], v, n)),
        SpecExpr::Vector(elems) => match fresh(n) {
            Ok(n1) => {
                let t = temp_name(n1);
                match gen_vector_elements(m, elems, n1) {
                    Ok((c, n2)) => Ok(
                        (
                            "    double "@ + t + "["@ + nat_text(elems.len()) + "] = {"@ + c
                                + "};\n"@,
                            t,
                            n2,
                        ),
                    ),
                    Err(err) => Err(err),
                }
            },
            Err(err) => Err(err),
        },
        SpecExpr::Matrix(rows) => match fresh(n) {
            Ok(n1) => {
                let t = temp_name(n1);
                let r_cnt = rows.len() as usize;
                let c_cnt = if rows.len() > 0 {
                    rows[0].len() as usize
                } else {
                    0usize
                };
                match product(r_cnt, c_cnt) {
                    Ok(total) => match gen_matrix_rows(m, rows, true, n1) {
                        Ok((c, _, n2)) => Ok(
                            (
                                "    double "@ + t + "["@ + nat_text(total) + "] = {"@ + c
                                    + "};\n"@,
                                t,
                                n2,
                            ),
                        ),
                        Err(err) => Err(err),
                    },
                    Err(err) => Err(err),
                }
            },
            Err(err) => Err(err),
        },
        SpecExpr::Slice { target, start, end } => match gen_expr(m, *target, n) {
            Ok((c, v, n1)) => gen_slice(c, v, start, end, n1),
            Err(err) => Err(err),
        },
        SpecExpr::MatrixSlice { target, r_start, r_end, c_start, c_end } => match gen_expr(
            m,
            *target,
            n,
        ) {
            Ok((c, v, n1)) => gen_matrix_slice(m, *target, c, v, r_start, r_end, c_start, c_end, n1),
            Err(err) => Err(err),
        },
        SpecExpr::Binary { op, left, right } => match op {
            BinaryOp::Pipe => match gen_expr(m, *left, n) {
                Ok((c, lv, n1)) => gen_pipe(m, *left, *right, c, lv, n1),
                Err(err) => Err(err),
            },
            _ => match gen_expr(m, *left, n) {
                Ok((c1, lv, n1)) => match gen_expr(m, *right, n1) {
                    Ok((c2, rv, n2)) => gen_binary(m, op, *left, *right, c1 + c2, lv, rv, n2),
                    Err(err) => Err(err),
                },
                Err(err) => Err(err),
            },
        },
        SpecExpr::Call { callee, args } => gen_call(m, callee, args, n),
    }
}

/// A slice `[start:end]` of a vector whose code is `c` and value `v`.
pub open spec fn gen_slice(c: Seq<char>, v: Seq<char>, start: usize, end: usize, n1: nat) -> Generated {
    match difference(end, start) {
        Ok(len) => match fresh(n1) {
            Ok(n2) => {
                let t = temp_name(n2);
                Ok(
                    (
                        c + zeroed_array(t, len) + call_line(
                            "vec_slice"@,
                            seq![t, v, nat_text(start as nat), nat_text(end as nat)],
                        ),
                        t,
                        n2,
                    ),
                )
            },
            Err(err) => Err(err),
        },
        Err(err) => Err(err),
    }
}

/// A block `[r_start:r_end, c_start:c_end]` of `target`, whose code is `c`
/// and value `v`.
pub open spec fn gen_matrix_slice(
    m: Map<Seq<char>, ResolvedType>,
    target: SpecExpr,
    c: Seq<char>,
    v: Seq<char>,
    r_start: usize,
    r_end: usize,
    c_start: usize,
    c_end: usize,
    n1: nat,
) -> Generated {
    match type_of(m, target) {
        Ok(ResolvedType::Matrix { cols: in_cols, .. }) => match difference(r_end, r_start) {
            Ok(out_rows) => match difference(c_end, c_start) {
                Ok(out_cols) => match product(out_rows as usize, out_cols as usize) {
                    Ok(total) => match fresh(n1) {
                        Ok(n2) => {
                            let t = temp_name(n2);
                            Ok(
                                (
                                    c + zeroed_array(t, total) + call_line(
                                        "mat_slice"@,
                                        seq![
                                            t,
                                            v,
                                            nat_text(in_cols as nat),
                                            nat_text(r_start as nat),
                                            nat_text(r_end as nat),
                                            nat_text(c_start as nat),
                                            nat_text(c_end as nat),
                                        ],
                                    ),
                                    t,
                                    n2,
                                ),
                            )
                        },
                        Err(err) => Err(err),
                    },
                    Err(err) => Err(err),
                },
                Err(err) => Err(err),
            },
            Err(err) => Err(err),
        },
        Ok(_) => Err(SpecGenError::ExpectedMatrixForSlice),
        Err(err) => Err(err),
    }
}

/// `left |> right`, after the code `c` and value `lv` of `left`: a vector
/// piped into `relu` is clamped in place; the value is the left one.
pub open spec fn gen_pipe(
    m: Map<Seq<char>, ResolvedType>,
    left: SpecExpr,
    right: SpecExpr,
    c: Seq<char>,
    lv: Seq<char>,
    n1: nat,
) -> Generated {
    match type_of(m, left) {
        Ok(lt) => {
            let relu = match (right, lt) {
                (SpecExpr::Call { callee, .. }, ResolvedType::Vector { len, .. }) => if callee
                    == "relu"@ {
                    call_line("vec_relu"@, seq![lv, nat_text(len as nat)])
                } else {
                    seq![]
                },
                _ => seq![],
            };
            Ok((c + relu, lv, n1))
        },
        Err(err) => Err(err),
    }
}

/// The elements of a vector literal: each element's code and value, with
/// `, ` between values.
pub open spec fn gen_vector_elements(m: Map<Seq<char>, ResolvedType>, elems: Seq<SpecExpr>, n: nat) -> Result<
    (Seq<char>, nat),
    SpecGenError,
>
    decreases elems,
{
    if elems.len() == 0 {
        Ok((seq![], n))
    } else {
        match gen_expr(m, elems[0], n) {
            Ok((c, v, n1)) => {
                let sep = if elems.len() > 1 {
                    ", "@
                } else {
                    seq![]
                };
                match gen_vector_elements(m, elems.subrange(1, elems.len() as int), n1) {
                    Ok((rest, n2)) => Ok((c + v + sep + rest, n2)),
                    Err(err) => Err(err),
                }
            },
            Err(err) => Err(err),
        }
    }
}

/// The elements of one matrix row: `, ` before each value but the very
/// first of the matrix; also whether the first is still to come.
pub open spec fn gen_matrix_row(
    m: Map<Seq<char>, ResolvedType>,
    row: Seq<SpecExpr>,
    first: bool,
    n: nat,
) -> Result<(Seq<char>, bool, nat), SpecGenError>
    decreases row,
{
    if row.len() == 0 {
        Ok((seq![], first, n))
    } else {
        let sep = if !first {
            ", "@
        } else {
            seq![]
        };
        match gen_expr(m, row[0], n) {
            Ok((c, v, n1)) => match gen_matrix_row(m, row.subrange(1, row.len() as int), false, n1) {
                Ok((rest, f, n2)) => Ok((sep + c + v + rest, f, n2)),
                Err(err) => Err(err),
            },
            Err(err) => Err(err),
        }
    }
}

/// All rows of a matrix literal, in order.
pub open spec fn gen_matrix_rows(
    m: Map<Seq<char>, ResolvedType>,
    rows: Seq<Seq<SpecExpr>>,
    first: bool,
    n: nat,
) -> Result<(Seq<char>, bool, nat), SpecGenError>
    decreases rows,
{
    if rows.len() == 0 {
        Ok((seq![], first, n))
    } else {
        match gen_matrix_row(m, rows[0], first, n) {
            Ok((c, f, n1)) => match gen_matrix_rows(m, rows.subrange(1, rows.len() as int), f, n1) {
                Ok((rest, f2, n2)) => Ok((c + rest, f2, n2)),
                Err(err) => Err(err),
            },
            Err(err) => Err(err),
        }
    }
}

/// An arithmetic or element-wise operator, after both operands' code
/// (`code`) and values (`lv`, `rv`).
pub open spec fn gen_binary(
    m: Map<Seq<char>, ResolvedType>,
    op: BinaryOp,
    left: SpecExpr,
    right: SpecExpr,
    code: Seq<char>,
    lv: Seq<char>,
    rv: Seq<char>,
    n: nat,
) -> Generated {
    match op {
        BinaryOp::MatMul => gen_matmul(m, left, right, code, lv, rv, n),
        BinaryOp::Add | BinaryOp::Sub | BinaryOp::Mul | BinaryOp::Div => match type_of(m, left) {
            Ok(lt) => match type_of(m, right) {
                Ok(rt) => match fresh(n) {
                    Ok(n1) => gen_arithmetic(op, lt, rt, code, lv, rv, n1),
                    Err(err) => Err(err),
                },
                Err(err) => Err(err),
            },
            Err(err) => Err(err),
        },
        _ => gen_elementwise(m, op, left, code, lv, rv, n),
    }
}

/// `left @ right`: a vector times a matrix, or a matrix times a matrix.
pub open spec fn gen_matmul(
    m: Map<Seq<char>, ResolvedType>,
    left: SpecExpr,
    right: SpecExpr,
    code: Seq<char>,
    lv: Seq<char>,
    rv: Seq<char>,
    n: nat,
) -> Generated {
    match type_of(m, left) {
        Ok(lt) => match type_of(m, right) {
            Ok(rt) => match (lt, rt) {
                (ResolvedType::Vector { len, .. }, ResolvedType::Matrix { cols, .. }) => match fresh(n) {
                    Ok(n1) => {
                        let t = temp_name(n1);
                        Ok(
                            (
                                code + zeroed_array(t, cols as nat) + call_line(
                                    "vec_mat_mul"@,
                                    seq![t, lv, rv, nat_text(len as nat), nat_text(cols as nat)],
                                ),
                                t,
                                n1,
                            ),
                        )
                    },
                    Err(err) => Err(err),
                },
                (
                    ResolvedType::Matrix { rows: r1, cols: c1, .. },
                    ResolvedType::Matrix { cols: c2, .. },
                ) => match product(r1, c2) {
                    Ok(total) => match fresh(n) {
                        Ok(n1) => {
                            let t = temp_name(n1);
                            Ok(
                                (
                                    code + zeroed_array(t, total) + call_line(
                                        "mat_mat_mul"@,
                                        seq![
                                            t,
                                            lv,
                                            rv,
                                            nat_text(r1 as nat),
                                            nat_text(c1 as nat),
                                            nat_text(c2 as nat),
                                        ],
                                    ),
                                    t,
                                    n1,
                                ),
                            )
                        },
                        Err(err) => Err(err),
                    },
                    Err(err) => Err(err),
                },
                _ => Err(SpecGenError::UnsupportedMatMul),
            },
            Err(err) => Err(err),
        },
        Err(err) => Err(err),
    }
}

/// An element-wise operator `.+ .- .* ./` on vectors or matrices.
pub open spec fn gen_elementwise(
    m: Map<Seq<char>, ResolvedType>,
    op: BinaryOp,
    left: SpecExpr,
    code: Seq<char>,
    lv: Seq<char>,
    rv: Seq<char>,
    n: nat,
) -> Generated {
    match type_of(m, left) {
        Ok(lt) => match fresh(n) {
            Ok(n1) => {
                let t = temp_name(n1);
                let opc = char_literal(op_char(op));
                match lt {
                    ResolvedType::Vector { len, .. } => Ok(
                        (
                            code + zeroed_array(t, len as nat) + call_line(
                                "vec_elem_op"@,
                                seq![t, lv, rv, nat_text(len as nat), opc],
                            ),
                            t,
                            n1,
                        ),
                    ),
                    ResolvedType::Matrix { rows, cols, .. } => match product(rows, cols) {
                        Ok(total) => Ok(
                            (
                                code + zeroed_array(t, total) + call_line(
                                    "vec_elem_op"@,
                                    seq![t, lv, rv, nat_text(total), opc],
                                ),
                                t,
                                n1,
                            ),
                        ),
                        Err(err) => Err(err),
                    },
                    _ => Err(SpecGenError::ElementwiseNonArray),
                }
            },
            Err(err) => Err(err),
        },
        Err(err) => Err(err),
    }
}

/// `+ - * /` on operands of types `lt` and `rt`, into temporary number `n1`.
pub open spec fn gen_arithmetic(
    op: BinaryOp,
    lt: ResolvedType,
    rt: ResolvedType,
    code: Seq<char>,
    lv: Seq<char>,
    rv: Seq<char>,
    n1: nat,
) -> Generated {
    let t = temp_name(n1);
    let opc = char_literal(op_char(op));
    let broadcast = |a: Seq<char>, b: Seq<char>, size: nat, flag: Seq<char>|
        code + zeroed_array(t, size) + call_line(
            "vec_broadcast_op"@,
            seq![t, a, b, nat_text(size), opc, flag],
        );
    match (lt, rt) {
        (ResolvedType::Matrix { rows: r1, cols: c1, .. }, ResolvedType::Matrix { cols: c2, .. })
            => if op == BinaryOp::Mul {
            match product(r1, c2) {
                Ok(total) => Ok(
                    (
                        code + zeroed_array(t, total) + call_line(
                            "mat_mat_mul"@,
                            seq![
                                t,
                                lv,
                                rv,
                                nat_text(r1 as nat),
                                nat_text(c1 as nat),
                                nat_text(c2 as nat),
                            ],
                        ),
                        t,
                        n1,
                    ),
                ),
                Err(err) => Err(err),
            }
        } else if op == BinaryOp::Add || op == BinaryOp::Sub {
            match product(r1, c1) {
                Ok(total) => Ok(
                    (
                        code + zeroed_array(t, total) + call_line(
                            "vec_elem_op"@,
                            seq![t, lv, rv, nat_text(total), opc],
                        ),
                        t,
                        n1,
                    ),
                ),
                Err(err) => Err(err),
            }
        } else {
            Ok((code, "("@ + lv + seq![' ', op_char(op), ' '] + rv + ")"@, n1))
        },
        (ResolvedType::Vector { len, .. }, ResolvedType::F64) => Ok(
            (broadcast(lv, rv, len as nat, "0"@), t, n1),
        ),
        (ResolvedType::F64, ResolvedType::Vector { len, .. }) => Ok(
            (broadcast(rv, lv, len as nat, "1"@), t, n1),
        ),
        (ResolvedType::Matrix { rows, cols, .. }, ResolvedType::F64) => match product(rows, cols) {
            Ok(total) => Ok((broadcast(lv, rv, total, "0"@), t, n1)),
            Err(err) => Err(err),
        },
        (ResolvedType::F64, ResolvedType::Matrix { rows, cols, .. }) => match product(rows, cols) {
            Ok(total) => Ok((broadcast(rv, lv, total, "1"@), t, n1)),
            Err(err) => Err(err),
        },
        _ => Ok((code, "("@ + lv + seq![' ', op_char(op), ' '] + rv + ")"@, n1)),
    }
}

/// `print(arg)`, after the code `c` and value `av` of the argument: a
/// printing statement for its type; the call has no value.
pub open spec fn gen_print(m: Map<Seq<char>, ResolvedType>, arg: SpecExpr, c: Seq<char>, av: Seq<char>, n1: nat) -> Generated {
    match type_of(m, arg) {
        Ok(ResolvedType::Vector { len, .. }) => Ok(
            (c + call_line("print_vector"@, seq![av, nat_text(len as nat)]), seq![], n1),
        ),
        Ok(ResolvedType::Matrix { rows, cols, .. }) => Ok(
            (
                c + call_line("print_matrix"@, seq![av, nat_text(rows as nat), nat_text(cols as nat)]),
                seq![],
                n1,
            ),
        ),
        Ok(ResolvedType::F64) | Ok(ResolvedType::Dec) => Ok(
            (c + call_line("printf"@, seq!["\"%.4f\\n\""@, av]), seq![], n1),
        ),
        Ok(ResolvedType::Void) => Ok((c, seq![], n1)),
        Err(err) => Err(err),
    }
}

/// `read_csv(rows, cols)` with two number literals: a matrix loaded from
/// `data.csv`; with other arguments, nothing.
pub open spec fn gen_read_csv(args: Seq<SpecExpr>, n: nat) -> Generated {
    match (args[0], args[1]) {
        (SpecExpr::Number(r), SpecExpr::Number(c)) => {
            let rows = literal_count(r);
            let cols = literal_count(c);
            match product(rows, cols) {
                Ok(total) => match fresh(n) {
                    Ok(n1) => {
                        let t = temp_name(n1);
                        Ok(
                            (
                                zeroed_array(t, total) + call_line(
                                    "read_csv_file"@,
                                    seq![
                                        t,
                                        nat_text(rows as nat),
                                        nat_text(cols as nat),
                                        "\"data.csv\""@,
                                    ],
                                ),
                                t,
                                n1,
                            ),
                        )
                    },
                    Err(err) => Err(err),
                },
                Err(err) => Err(err),
            }
        },
        _ => Ok((seq![], seq![], n)),
    }
}

/// `mse_loss(pred, target)`, after the code `c` and values `pv`, `tv` of
/// both arguments: the loss over the matrix `pred`; nothing for other types.
pub open spec fn gen_mse(
    m: Map<Seq<char>, ResolvedType>,
    pred: SpecExpr,
    c: Seq<char>,
    pv: Seq<char>,
    tv: Seq<char>,
    n2: nat,
) -> Generated {
    match type_of(m, pred) {
        Ok(ResolvedType::Matrix { rows, cols, .. }) => match product(rows, cols) {
            Ok(total) => match fresh(n2) {
                Ok(n3) => {
                    let t = temp_name(n3);
                    Ok(
                        (
                            c + "    double "@ + t + " = mat_mse_loss("@ + comma_list(
                                seq![pv, tv, nat_text(total)],
                            ) + ");\n"@,
                            t,
                            n3,
                        ),
                    )
                },
                Err(err) => Err(err),
            },
            Err(err) => Err(err),
        },
        Ok(_) => Ok((c, seq![], n2)),
        Err(err) => Err(err),
    }
}

/// `relu`, `sigmoid` or `transpose` of `arg`, after its code `c` and value
/// `av`: the result matrix for a matrix argument; nothing for other types.
pub open spec fn gen_matrix_fn(
    m: Map<Seq<char>, ResolvedType>,
    callee: Seq<char>,
    arg: SpecExpr,
    c: Seq<char>,
    av: Seq<char>,
    n1: nat,
) -> Generated {
    match type_of(m, arg) {
        Ok(ResolvedType::Matrix { rows, cols, .. }) => if callee == "transpose"@ {
            match product(rows, cols) {
                Ok(total) => match fresh(n1) {
                    Ok(n2) => {
                        let t = temp_name(n2);
                        Ok(
                            (
                                c + zeroed_array(t, total) + call_line(
                                    "mat_transpose"@,
                                    seq![t, av, nat_text(rows as nat), nat_text(cols as nat)],
                                ),
                                t,
                                n2,
                            ),
                        )
                    },
                    Err(err) => Err(err),
                },
                Err(err) => Err(err),
            }
        } else if callee == "relu"@ {
            matrix_op(c, "mat_relu"@, av, rows, cols, n1)
        } else {
            matrix_op(c, "mat_sigmoid"@, av, rows, cols, n1)
        },
        Ok(_) => Ok((c, seq![], n1)),
        Err(err) => Err(err),
    }
}

/// `zeros(rows, cols)` or `random(rows, cols)` with two number literals: a
/// generated matrix; with other arguments, nothing.
pub open spec fn gen_generator_call(callee: Seq<char>, args: Seq<SpecExpr>, n: nat) -> Generated {
    match (args[0], args[1]) {
        (SpecExpr::Number(r), SpecExpr::Number(c)) => if callee == "zeros"@ {
            generator_op("mat_zeros"@, literal_count(r), literal_count(c), n)
        } else {
            generator_op("mat_random"@, literal_count(r), literal_count(c), n)
        },
        _ => Ok((seq![], seq![], n)),
    }
}

/// A call of a built-in function.
pub open spec fn gen_call(m: Map<Seq<char>, ResolvedType>, callee: Seq<char>, args: Seq<SpecExpr>, n: nat) -> Generated
    decreases args,
{
    if callee == "print"@ && args.len() > 0 {
        match gen_expr(m, args[0], n) {
            Ok((c, av, n1)) => gen_print(m, args[0], c, av, n1),
            Err(err) => Err(err),
        }
    } else if callee == "read_csv"@ && args.len() == 2 {
        gen_read_csv(args, n)
    } else if callee == "mse_loss"@ && args.len() == 2 {
        match gen_expr(m, args[0], n) {
            Ok((c1, pv, n1)) => match gen_expr(m, args[1], n1) {
                Ok((c2, tv, n2)) => gen_mse(m, args[0], c1 + c2, pv, tv, n2),
                Err(err) => Err(err),
            },
            Err(err) => Err(err),
        }
    } else if (callee == "relu"@ || callee == "sigmoid"@ || callee == "transpose"@) && args.len()
        > 0 {
        match gen_expr(m, args[0], n) {
            Ok((c, av, n1)) => gen_matrix_fn(m, callee, args[0], c, av, n1),
            Err(err) => Err(err),
        }
    } else if (callee == "zeros"@ || callee == "random"@) && args.len() == 2 {
        gen_generator_call(callee, args, n)
    } else {
        Ok((seq![], seq![], n))
    }
}

/// `let name = value`, after the code `c` and value `v` of `value`: a C
/// variable of that name holding a copy of the value.
pub open spec fn gen_let(
    m: Map<Seq<char>, ResolvedType>,
    name: Seq<char>,
    value: SpecExpr,
    c: Seq<char>,
    v: Seq<char>,
    n1: nat,
) -> Result<(Seq<char>, nat), SpecGenError> {
    match type_of(m, value) {
        Ok(ResolvedType::Vector { len, .. }) => Ok(
            (
                c + zeroed_array(name, len as nat) + "    for(int i=0; i<"@ + nat_text(len as nat)
                    + "; i++) "@ + name + "[i] = "@ + v + "[i];\n"@,
                n1,
            ),
        ),
        Ok(ResolvedType::Matrix { rows, cols, .. }) => match product(rows, cols) {
            Ok(total) => Ok(
                (
                    c + zeroed_array(name, total) + "    for(int i=0; i<"@ + nat_text(total)
                        + "; i++) "@ + name + "[i] = "@ + v + "[i];\n"@,
                    n1,
                ),
            ),
            Err(err) => Err(err),
        },
        Ok(ResolvedType::F64) | Ok(ResolvedType::Dec) => Ok(
            (c + "    double "@ + name + " = "@ + v + ";\n"@, n1),
        ),
        Ok(ResolvedType::Void) => Ok((c, n1)),
        Err(err) => Err(err),
    }
}

/// The code of one statement, with temporaries numbered after `n`.
pub open spec fn gen_statement(m: Map<Seq<char>, ResolvedType>, s: SpecStatement, n: nat) -> Result<
    (Seq<char>, nat),
    SpecGenError,
> {
    match s {
        SpecStatement::Let { name, value, .. } => match gen_expr(m, value, n) {
            Ok((c, v, n1)) => gen_let(m, name, value, c, v, n1),
            Err(err) => Err(err),
        },
        SpecStatement::Expression(e) => match gen_expr(m, e, n) {
            Ok((c, _, n1)) => Ok((c, n1)),
            Err(err) => Err(err),
        },
    }
}

/// The code of the statements in order.
pub open spec fn gen_statements(m: Map<Seq<char>, ResolvedType>, stmts: Seq<SpecStatement>, n: nat) -> Result<
    (Seq<char>, nat),
    SpecGenError,
>
    decreases stmts.len(),
{
    if stmts.len() == 0 {
        Ok((seq![], n))
    } else {
        match gen_statement(m, stmts[0], n) {
            Ok((c, n1)) => match gen_statements(m, stmts.subrange(1, stmts.len() as int), n1) {
                Ok((rest, n2)) => Ok((c + rest, n2)),
                Err(err) => Err(err),
            },
            Err(err) => Err(err),
        }
    }
}

/// The whole C program for `stmts`: the runtime, then `main` with the code
/// of each statement; and the temporary counter after it.
pub open spec fn spec_generate(m: Map<Seq<char>, ResolvedType>, stmts: Seq<SpecStatement>, n: nat) -> Result<
    (Seq<char>, nat),
    SpecGenError,
> {
    match gen_statements(m, stmts, n) {
        Ok((c, n1)) => Ok((PRELUDE@ + c + EPILOGUE@, n1)),
        Err(err) => Err(err),
    }
}


/// Every generated program is the runtime helpers and the opening of `main`,
/// then the code of the statements, then the end of `main`.
pub proof fn law_generated_program_frame(m: Map<Seq<char>, ResolvedType>, stmts: Seq<SpecStatement>, n: nat)
    ensures
        spec_generate(m, stmts, n) matches Ok((code, _)) ==> {
            &&& PRELUDE@.is_prefix_of(code)
            &&& EPILOGUE@.is_suffix_of(code)
            &&& gen_statements(m, stmts, n) matches Ok((body, _)) && code == PRELUDE@ + body + EPILOGUE@
        },
{
    match gen_statements(m, stmts, n) {
        Ok((body, _)) => {
            let code = PRELUDE@ + body + EPILOGUE@;
            assert(code.subrange(0, PRELUDE@.len() as int) =~= PRELUDE@);
            assert(code.subrange(code.len() - EPILOGUE@.len(), code.len() as int) =~= EPILOGUE@);
        },
        Err(_) => {},
    }
}

/// For matrices, `*` and `@` are the same operation: the same type, and
/// the same generated code.
pub proof fn law_star_and_at_agree_on_matrices(
    m: Map<Seq<char>, ResolvedType>,
    a: SpecExpr,
    b: SpecExpr,
    n: nat,
)
    requires
        spec_infer(m, a) matches Ok(ResolvedType::Matrix { .. }),
        spec_infer(m, b) matches Ok(ResolvedType::Matrix { .. }),
    ensures
        spec_infer(m, binary_expr(BinaryOp::Mul, a, b)) == spec_infer(
            m,
            binary_expr(BinaryOp::MatMul, a, b),
        ),
        gen_expr(m, binary_expr(BinaryOp::Mul, a, b), n) == gen_expr(
            m,
            binary_expr(BinaryOp::MatMul, a, b),
            n,
        ),
{
    match gen_expr(m, a, n) {
        Ok((c1, lv, n1)) => match gen_expr(m, b, n1) {
            Ok((c2, rv, n2)) => {
                assert(gen_binary(m, BinaryOp::Mul, a, b, c1 + c2, lv, rv, n2) == gen_binary(
                    m,
                    BinaryOp::MatMul,
                    a,
                    b,
                    c1 + c2,
                    lv,
                    rv,
                    n2,
                ));
            },
            Err(_) => {},
        },
        Err(_) => {},
    }
}

/// The temporaries generating an expression takes are numbered above the
/// counter it starts from and up to the counter it ends with, so their names
/// differ from those of every temporary taken before.
pub proof fn law_expression_temporaries_fresh(m: Map<Seq<char>, ResolvedType>, e: SpecExpr, n: nat)
    ensures
        gen_expr(m, e, n) matches Ok((_, _, k)) ==> n <= k && forall|i: nat, j: nat|
            j <= n < i <= k ==> #[trigger] temp_name(i) != #[trigger] temp_name(j),
{
    law_expression_counter_only_grows(m, e, n);
    assert forall|i: nat, j: nat| j <= n < i implies #[trigger] temp_name(i) != #[trigger] temp_name(j) by {
        law_temp_names_distinct(i, j);
    }
}

/// No two temporaries share a name: `t` followed by the counter in decimal
/// names each counter value once.
pub proof fn law_temp_names_distinct(a: nat, b: nat)
    ensures
        temp_name(a) == temp_name(b) ==> a == b,
{
    if temp_name(a) == temp_name(b) {
        assert(nat_text(a) =~= temp_name(a).subrange(1, temp_name(a).len() as int));
        assert(nat_text(b) =~= temp_name(b).subrange(1, temp_name(b).len() as int));
        lemma_nat_text_injective(a, b);
    }
}

/// Generating `a op b` for an operator other than `|>`: the code of `a`,
/// then of `b`, then the operator's own code.
proof fn lemma_gen_binary_step(
    m: Map<Seq<char>, ResolvedType>,
    op: BinaryOp,
    a: SpecExpr,
    b: SpecExpr,
    n: nat,
    c1: Seq<char>,
    av: Seq<char>,
    n1: nat,
    c2: Seq<char>,
    bv: Seq<char>,
    n2: nat,
)
    requires
        op != BinaryOp::Pipe,
        gen_expr(m, a, n) == Ok::<(Seq<char>, Seq<char>, nat), SpecGenError>((c1, av, n1)),
        gen_expr(m, b, n1) == Ok::<(Seq<char>, Seq<char>, nat), SpecGenError>((c2, bv, n2)),
    ensures
        gen_expr(m, binary_expr(op, a, b), n) == gen_binary(m, op, a, b, c1 + c2, av, bv, n2),
{
}

/// `+ - * /` after both operands' code: with both types known and a fresh
/// temporary, the arithmetic on those types.
proof fn lemma_gen_arithmetic_step(
    m: Map<Seq<char>, ResolvedType>,
    op: BinaryOp,
    a: SpecExpr,
    b: SpecExpr,
    lt: ResolvedType,
    rt: ResolvedType,
    code: Seq<char>,
    av: Seq<char>,
    bv: Seq<char>,
    n2: nat,
)
    requires
        op == BinaryOp::Add || op == BinaryOp::Sub || op == BinaryOp::Mul || op == BinaryOp::Div,
        spec_infer(m, a) == Ok::<ResolvedType, SpecCheckError>(lt),
        spec_infer(m, b) == Ok::<ResolvedType, SpecCheckError>(rt),
        n2 + 1 <= usize::MAX,
    ensures
        gen_binary(m, op, a, b, code, av, bv, n2) == gen_arithmetic(op, lt, rt, code, av, bv, n2 + 1),
{
}

/// `+ - * /` between an array of `size` elements and a scalar, into
/// temporary number `n1`: one `vec_broadcast_op` call, the array value
/// first, with the flag telling whether the scalar is the left operand.
proof fn lemma_gen_arithmetic_broadcast(
    op: BinaryOp,
    oc: char,
    lt: ResolvedType,
    rt: ResolvedType,
    size: nat,
    code: Seq<char>,
    lv: Seq<char>,
    rv: Seq<char>,
    n1: nat,
)
    requires
        (op == BinaryOp::Add && oc == '+') || (op == BinaryOp::Sub && oc == '-') || (op
            == BinaryOp::Mul && oc == '*') || (op == BinaryOp::Div && oc == '/'),
        size <= usize::MAX,
        (rt == ResolvedType::F64 && ((lt matches ResolvedType::Vector { len, .. } && size == len)
            || (lt matches ResolvedType::Matrix { rows, cols, .. } && size == rows * cols))) || (lt
            == ResolvedType::F64 && ((rt matches ResolvedType::Vector { len, .. } && size == len)
            || (rt matches ResolvedType::Matrix { rows, cols, .. } && size == rows * cols))),
    ensures
        rt == ResolvedType::F64 ==> gen_arithmetic(op, lt, rt, code, lv, rv, n1) == Ok::<
            (Seq<char>, Seq<char>, nat),
            SpecGenError,
        >(
            (
                code + zeroed_array(temp_name(n1), size) + call_line(
                    "vec_broadcast_op"@,
                    seq![temp_name(n1), lv, rv, nat_text(size), seq!['\'', oc, '\''], seq!['0']],
                ),
                temp_name(n1),
                n1,
            ),
        ),
        lt == ResolvedType::F64 ==> gen_arithmetic(op, lt, rt, code, lv, rv, n1) == Ok::<
            (Seq<char>, Seq<char>, nat),
            SpecGenError,
        >(
            (
                code + zeroed_array(temp_name(n1), size) + call_line(
                    "vec_broadcast_op"@,
                    seq![temp_name(n1), rv, lv, nat_text(size), seq!['\'', oc, '\''], seq!['1']],
                ),
                temp_name(n1),
                n1,
            ),
        ),
{
    reveal_strlit("0");
    reveal_strlit("1");
    assert("0"@ =~= seq!['0']);
    assert("1"@ =~= seq!['1']);
    let opc = char_literal(op_char(op));
    assert(opc =~= seq!['\'', oc, '\'']);
    let t = temp_name(n1);
    let broadcast = |a: Seq<char>, b: Seq<char>, sz: nat, flag: Seq<char>|
        code + zeroed_array(t, sz) + call_line(
            "vec_broadcast_op"@,
            seq![t, a, b, nat_text(sz), opc, flag],
        );
    assert(broadcast(lv, rv, size, "0"@) == code + zeroed_array(t, size) + call_line(
        "vec_broadcast_op"@,
        seq![t, lv, rv, nat_text(size), seq!['\'', oc, '\''], seq!['0']],
    ));
    assert(broadcast(rv, lv, size, "1"@) == code + zeroed_array(t, size) + call_line(
        "vec_broadcast_op"@,
        seq![t, rv, lv, nat_text(size), seq!['\'', oc, '\''], seq!['1']],
    ));
}

/// `+ - * /` with a vector or matrix `a` on the left and a scalar `s` on the
/// right computes `a[i] op s` for every element: after the code of `a` and
/// of `s`, a fresh array as large as `a` is declared and `vec_broadcast_op`
/// gets the array operand, then the scalar, then the size, the operator
/// character and the flag `0` (the scalar is not the first operand).
pub proof fn law_broadcast_array_then_scalar(
    m: Map<Seq<char>, ResolvedType>,
    a: SpecExpr,
    s: SpecExpr,
    op: BinaryOp,
    oc: char,
    size: nat,
    n: nat,
    c1: Seq<char>,
    av: Seq<char>,
    n1: nat,
    c2: Seq<char>,
    sv: Seq<char>,
    n2: nat,
)
    requires
        (op == BinaryOp::Add && oc == '+') || (op == BinaryOp::Sub && oc == '-') || (op
            == BinaryOp::Mul && oc == '*') || (op == BinaryOp::Div && oc == '/'),
        (spec_infer(m, a) matches Ok(ResolvedType::Vector { len, .. }) && size == len) || (spec_infer(
            m,
            a,
        ) matches Ok(ResolvedType::Matrix { rows, cols, .. }) && size == rows * cols),
        size <= usize::MAX,
        spec_infer(m, s) == Ok::<ResolvedType, SpecCheckError>(ResolvedType::F64),
        gen_expr(m, a, n) == Ok::<(Seq<char>, Seq<char>, nat), SpecGenError>((c1, av, n1)),
        gen_expr(m, s, n1) == Ok::<(Seq<char>, Seq<char>, nat), SpecGenError>((c2, sv, n2)),
        n2 + 1 <= usize::MAX,
    ensures
        gen_expr(m, binary_expr(op, a, s), n) == Ok::<(Seq<char>, Seq<char>, nat), SpecGenError>(
            (
                c1 + c2 + zeroed_array(temp_name(n2 + 1), size) + call_line(
                    "vec_broadcast_op"@,
                    seq![
                        temp_name(n2 + 1),
                        av,
                        sv,
                        nat_text(size),
                        seq!['\'', oc, '\''],
                        seq!['0'],
                    ],
                ),
                temp_name(n2 + 1),
                n2 + 1,
            ),
        ),
{
    let lt = spec_infer(m, a)->Ok_0;
    lemma_gen_binary_step(m, op, a, s, n, c1, av, n1, c2, sv, n2);
    lemma_gen_arithmetic_step(m, op, a, s, lt, ResolvedType::F64, c1 + c2, av, sv, n2);
    lemma_gen_arithmetic_broadcast(op, oc, lt, ResolvedType::F64, size, c1 + c2, av, sv, n2 + 1);
}

/// `+ - * /` with a scalar `s` on the left and a vector or matrix `a` on the
/// right computes `s op a[i]` for every element: after the code of `s` and
/// of `a`, a fresh array as large as `a` is declared and `vec_broadcast_op`
/// gets the array operand, then the scalar, then the size, the operator
/// character and the flag `1` (the scalar is the first operand).
pub proof fn law_broadcast_scalar_then_array(
    m: Map<Seq<char>, ResolvedType>,
    s: SpecExpr,
    a: SpecExpr,
    op: BinaryOp,
    oc: char,
    size: nat,
    n: nat,
    c1: Seq<char>,
    sv: Seq<char>,
    n1: nat,
    c2: Seq<char>,
    av: Seq<char>,
    n2: nat,
)
    requires
        (op == BinaryOp::Add && oc == '+') || (op == BinaryOp::Sub && oc == '-') || (op
            == BinaryOp::Mul && oc == '*') || (op == BinaryOp::Div && oc == '/'),
        (spec_infer(m, a) matches Ok(ResolvedType::Vector { len, .. }) && size == len) || (spec_infer(
            m,
            a,
        ) matches Ok(ResolvedType::Matrix { rows, cols, .. }) && size == rows * cols),
        size <= usize::MAX,
        spec_infer(m, s) == Ok::<ResolvedType, SpecCheckError>(ResolvedType::F64),
        gen_expr(m, s, n) == Ok::<(Seq<char>, Seq<char>, nat), SpecGenError>((c1, sv, n1)),
        gen_expr(m, a, n1) == Ok::<(Seq<char>, Seq<char>, nat), SpecGenError>((c2, av, n2)),
        n2 + 1 <= usize::MAX,
    ensures
        gen_expr(m, binary_expr(op, s, a), n) == Ok::<(Seq<char>, Seq<char>, nat), SpecGenError>(
            (
                c1 + c2 + zeroed_array(temp_name(n2 + 1), size) + call_line(
                    "vec_broadcast_op"@,
                    seq![
                        temp_name(n2 + 1),
                        av,
                        sv,
                        nat_text(size),
                        seq!['\'', oc, '\''],
                        seq!['1'],
                    ],
                ),
                temp_name(n2 + 1),
                n2 + 1,
            ),
        ),
{
    let rt = spec_infer(m, a)->Ok_0;
    lemma_gen_binary_step(m, op, s, a, n, c1, sv, n1, c2, av, n2);
    lemma_gen_arithmetic_step(m, op, s, a, ResolvedType::F64, rt, c1 + c2, sv, av, n2);
    lemma_gen_arithmetic_broadcast(op, oc, ResolvedType::F64, rt, size, c1 + c2, sv, av, n2 + 1);
}

/// `+ - * /` on two scalars is written inline: after the code of both
/// operands, the value is `(l op r)` in C, with no array declared.
pub proof fn law_scalar_arithmetic_is_inline(
    m: Map<Seq<char>, ResolvedType>,
    a: SpecExpr,
    b: SpecExpr,
    op: BinaryOp,
    oc: char,
    n: nat,
    c1: Seq<char>,
    av: Seq<char>,
    n1: nat,
    c2: Seq<char>,
    bv: Seq<char>,
    n2: nat,
)
    requires
        (op == BinaryOp::Add && oc == '+') || (op == BinaryOp::Sub && oc == '-') || (op
            == BinaryOp::Mul && oc == '*') || (op == BinaryOp::Div && oc == '/'),
        spec_infer(m, a) == Ok::<ResolvedType, SpecCheckError>(ResolvedType::F64),
        spec_infer(m, b) == Ok::<ResolvedType, SpecCheckError>(ResolvedType::F64),
        gen_expr(m, a, n) == Ok::<(Seq<char>, Seq<char>, nat), SpecGenError>((c1, av, n1)),
        gen_expr(m, b, n1) == Ok::<(Seq<char>, Seq<char>, nat), SpecGenError>((c2, bv, n2)),
        n2 + 1 <= usize::MAX,
    ensures
        gen_expr(m, binary_expr(op, a, b), n) == Ok::<(Seq<char>, Seq<char>, nat), SpecGenError>(
            (c1 + c2, seq!['('] + av + seq![' ', oc, ' '] + bv + seq![')'], n2 + 1),
        ),
{
    reveal_strlit("(");
    reveal_strlit(")");
    lemma_gen_binary_step(m, op, a, b, n, c1, av, n1, c2, bv, n2);
    lemma_gen_arithmetic_step(
        m,
        op,
        a,
        b,
        ResolvedType::F64,
        ResolvedType::F64,
        c1 + c2,
        av,
        bv,
        n2,
    );
    assert(op_char(op) == oc);
    assert("("@ =~= seq!['(']);
    assert(")"@ =~= seq![')']);
    assert(gen_arithmetic(op, ResolvedType::F64, ResolvedType::F64, c1 + c2, av, bv, n2 + 1) == Ok::<
        (Seq<char>, Seq<char>, nat),
        SpecGenError,
    >((c1 + c2, seq!['('] + av + seq![' ', oc, ' '] + bv + seq![')'], n2 + 1)));
}

/// `read_csv(r, c)` with number literals loads an `r`×`c` matrix: the
/// checker gives it `r` rows and `c` columns, and the generated code declares
/// an array of `r * c` zeros and passes the checker's row count, then its
/// column count, to `read_csv_file` together with the file name.
#[verifier::spinoff_prover]
pub proof fn law_read_csv_rows_then_cols(
    m: Map<Seq<char>, ResolvedType>,
    r: Seq<char>,
    c: Seq<char>,
    n: nat,
)
    requires
        m.contains_key("read_csv"@),
        literal_count(r) * literal_count(c) <= usize::MAX,
        n + 1 <= usize::MAX,
    ensures
        spec_infer(m, call_expr("read_csv"@, seq![SpecExpr::Number(r), SpecExpr::Number(c)]))
            == Ok::<ResolvedType, SpecCheckError>(
            ResolvedType::Matrix {
                elem: Box::new(ResolvedType::F64),
                rows: literal_count(r),
                cols: literal_count(c),
            },
        ),
        spec_infer(m, call_expr("read_csv"@, seq![SpecExpr::Number(r), SpecExpr::Number(c)]))
            matches Ok(ResolvedType::Matrix { rows, cols, .. }) && gen_expr(
            m,
            call_expr("read_csv"@, seq![SpecExpr::Number(r), SpecExpr::Number(c)]),
            n,
        ) == Ok::<(Seq<char>, Seq<char>, nat), SpecGenError>(
            (
                zeroed_array(temp_name(n + 1), (rows * cols) as nat) + call_line(
                    "read_csv_file"@,
                    seq![
                        temp_name(n + 1),
                        nat_text(rows as nat),
                        nat_text(cols as nat),
                        "\"data.csv\""@,
                    ],
                ),
                temp_name(n + 1),
                n + 1,
            ),
        ),
{
    lemma_builtin_names();
    let args = seq![SpecExpr::Number(r), SpecExpr::Number(c)];
    assert(args[0] == SpecExpr::Number(r));
    assert(args[1] == SpecExpr::Number(c));
    assert(args.len() == 2);
    assert(gen_expr(m, call_expr("read_csv"@, args), n) == gen_call(m, "read_csv"@, args, n));
    assert(gen_call(m, "read_csv"@, args, n) == gen_read_csv(args, n));
}

/// The C array declared for a matrix literal holds `rows × cols` values: it
/// is named by the next temporary and sized by the number of rows times the
/// length of the first row, which are the rows and columns of the type the
/// checker gives the literal.
pub proof fn law_matrix_literal_array_size(
    m: Map<Seq<char>, ResolvedType>,
    rows: Seq<Seq<SpecExpr>>,
    n: nat,
)
    requires
        rows.len() <= usize::MAX,
        rows.len() > 0 ==> rows[0].len() <= usize::MAX,
    ensures
        gen_expr(m, SpecExpr::Matrix(rows), n) matches Ok((code, v, _)) ==> {
            &&& v == temp_name(n + 1)
            &&& ("    double "@ + temp_name(n + 1) + "["@ + nat_text(
                rows.len() * (if rows.len() > 0 {
                    rows[0].len()
                } else {
                    0
                }),
            ) + "] = {"@).is_prefix_of(code)
        },
        spec_infer(m, SpecExpr::Matrix(rows)) matches Ok(ResolvedType::Matrix { rows: r, cols: c, .. })
            ==> {
            &&& r == rows.len()
            &&& c == (if rows.len() > 0 {
                rows[0].len()
            } else {
                0
            })
            &&& gen_expr(m, SpecExpr::Matrix(rows), n) matches Ok((code, _, _)) ==> (
            "    double "@ + temp_name(n + 1) + "["@ + nat_text((r * c) as nat) + "] = {"@).is_prefix_of(code)
        },
{
    let cols: nat = if rows.len() > 0 {
        rows[0].len()
    } else {
        0
    };
    if let Ok((code, v, _)) = gen_expr(m, SpecExpr::Matrix(rows), n) {
        if let Ok((c, _, _)) = gen_matrix_rows(m, rows, true, n + 1) {
            let head = "    double "@ + temp_name(n + 1) + "["@ + nat_text(rows.len() * cols)
                + "] = {"@;
            assert(code == head + c + "};\n"@);
            assert(code.subrange(0, head.len() as int) =~= head);
        }
    }
}

/// The C array declared for a vector literal holds one value per element:
/// it is named by the next temporary and sized by the number of elements,
/// which is the length of the type the checker gives the literal.
pub proof fn law_vector_literal_array_size(
    m: Map<Seq<char>, ResolvedType>,
    elems: Seq<SpecExpr>,
    n: nat,
)
    requires
        elems.len() <= usize::MAX,
    ensures
        gen_expr(m, SpecExpr::Vector(elems), n) matches Ok((code, v, _)) ==> {
            &&& v == temp_name(n + 1)
            &&& ("    double "@ + temp_name(n + 1) + "["@ + nat_text(elems.len()) + "] = {"@).is_prefix_of(
                code,
            )
        },
        spec_infer(m, SpecExpr::Vector(elems)) matches Ok(ResolvedType::Vector { len, .. }) ==> len
            == elems.len(),
{
    if let Ok((code, v, _)) = gen_expr(m, SpecExpr::Vector(elems), n) {
        if let Ok((c, _)) = gen_vector_elements(m, elems, n + 1) {
            let head = "    double "@ + temp_name(n + 1) + "["@ + nat_text(elems.len()) + "] = {"@;
            assert(code == head + c + "};\n"@);
            assert(code.subrange(0, head.len() as int) =~= head);
        }
    }
}

/// The product of an `r1`×`c1` matrix `a` and a matrix `b` with `c2`
/// columns, written `a @ b` or `a * b`, is computed by one `mat_mat_mul` call
/// into a fresh array of `r1 * c2` values, taking `a` first, `b` second, then
/// `r1`, `c1` and `c2`.
pub proof fn law_matrix_product_code(
    m: Map<Seq<char>, ResolvedType>,
    a: SpecExpr,
    b: SpecExpr,
    op: BinaryOp,
    r1: usize,
    c1: usize,
    c2: usize,
    n: nat,
    code1: Seq<char>,
    av: Seq<char>,
    n1: nat,
    code2: Seq<char>,
    bv: Seq<char>,
    n2: nat,
)
    requires
        op == BinaryOp::MatMul || op == BinaryOp::Mul,
        spec_infer(m, a) matches Ok(ResolvedType::Matrix { rows, cols, .. }) && rows == r1 && cols
            == c1,
        spec_infer(m, b) matches Ok(ResolvedType::Matrix { cols, .. }) && cols == c2,
        r1 * c2 <= usize::MAX,
        gen_expr(m, a, n) == Ok::<(Seq<char>, Seq<char>, nat), SpecGenError>((code1, av, n1)),
        gen_expr(m, b, n1) == Ok::<(Seq<char>, Seq<char>, nat), SpecGenError>((code2, bv, n2)),
        n2 + 1 <= usize::MAX,
    ensures
        gen_expr(m, binary_expr(op, a, b), n) == Ok::<(Seq<char>, Seq<char>, nat), SpecGenError>(
            (
                code1 + code2 + zeroed_array(temp_name(n2 + 1), (r1 * c2) as nat) + call_line(
                    "mat_mat_mul"@,
                    seq![
                        temp_name(n2 + 1),
                        av,
                        bv,
                        nat_text(r1 as nat),
                        nat_text(c1 as nat),
                        nat_text(c2 as nat),
                    ],
                ),
                temp_name(n2 + 1),
                n2 + 1,
            ),
        ),
{
    lemma_gen_binary_step(m, op, a, b, n, code1, av, n1, code2, bv, n2);
    if op == BinaryOp::Mul {
        lemma_gen_arithmetic_step(
            m,
            op,
            a,
            b,
            spec_infer(m, a)->Ok_0,
            spec_infer(m, b)->Ok_0,
            code1 + code2,
            av,
            bv,
            n2,
        );
    }
}

/// A vector of length `len` times a matrix with `cols` columns, `v @ M`, is
/// computed by one `vec_mat_mul` call into a fresh array of `cols` values,
/// taking the vector first, the matrix second, then `len` and `cols`.
pub proof fn law_vector_matrix_product_code(
    m: Map<Seq<char>, ResolvedType>,
    a: SpecExpr,
    b: SpecExpr,
    len: usize,
    cols: usize,
    n: nat,
    code1: Seq<char>,
    av: Seq<char>,
    n1: nat,
    code2: Seq<char>,
    bv: Seq<char>,
    n2: nat,
)
    requires
        spec_infer(m, a) matches Ok(ResolvedType::Vector { len: l, .. }) && l == len,
        spec_infer(m, b) matches Ok(ResolvedType::Matrix { cols: c, .. }) && c == cols,
        gen_expr(m, a, n) == Ok::<(Seq<char>, Seq<char>, nat), SpecGenError>((code1, av, n1)),
        gen_expr(m, b, n1) == Ok::<(Seq<char>, Seq<char>, nat), SpecGenError>((code2, bv, n2)),
        n2 + 1 <= usize::MAX,
    ensures
        gen_expr(m, binary_expr(BinaryOp::MatMul, a, b), n) == Ok::<
            (Seq<char>, Seq<char>, nat),
            SpecGenError,
        >(
            (
                code1 + code2 + zeroed_array(temp_name(n2 + 1), cols as nat) + call_line(
                    "vec_mat_mul"@,
                    seq![temp_name(n2 + 1), av, bv, nat_text(len as nat), nat_text(cols as nat)],
                ),
                temp_name(n2 + 1),
                n2 + 1,
            ),
        ),
{
    lemma_gen_binary_step(m, BinaryOp::MatMul, a, b, n, code1, av, n1, code2, bv, n2);
}

/// Element by element operations keep operand order: `a .op b` on vectors or
/// matrices, and `a + b`, `a - b` on matrices, are one `vec_elem_op` call
/// into a fresh array as large as `a`, taking `a` first, `b` second, then the
/// size and the operator character.
pub proof fn law_elementwise_code(
    m: Map<Seq<char>, ResolvedType>,
    a: SpecExpr,
    b: SpecExpr,
    op: BinaryOp,
    oc: char,
    size: nat,
    n: nat,
    code1: Seq<char>,
    av: Seq<char>,
    n1: nat,
    code2: Seq<char>,
    bv: Seq<char>,
    n2: nat,
)
    requires
        (((op == BinaryOp::ElementAdd && oc == '+') || (op == BinaryOp::ElementSub && oc == '-')
            || (op == BinaryOp::ElementMul && oc == '*') || (op == BinaryOp::ElementDiv && oc
            == '/')) && ((spec_infer(m, a) matches Ok(ResolvedType::Vector { len, .. }) && size
            == len) || (spec_infer(m, a) matches Ok(ResolvedType::Matrix { rows, cols, .. })
            && size == rows * cols))) || (((op == BinaryOp::Add && oc == '+') || (op
            == BinaryOp::Sub && oc == '-')) && (spec_infer(m, a) matches Ok(
            ResolvedType::Matrix { rows, cols, .. },
        ) && size == rows * cols) && (spec_infer(m, b) matches Ok(ResolvedType::Matrix { .. }))),
        size <= usize::MAX,
        gen_expr(m, a, n) == Ok::<(Seq<char>, Seq<char>, nat), SpecGenError>((code1, av, n1)),
        gen_expr(m, b, n1) == Ok::<(Seq<char>, Seq<char>, nat), SpecGenError>((code2, bv, n2)),
        n2 + 1 <= usize::MAX,
    ensures
        gen_expr(m, binary_expr(op, a, b), n) == Ok::<(Seq<char>, Seq<char>, nat), SpecGenError>(
            (
                code1 + code2 + zeroed_array(temp_name(n2 + 1), size) + call_line(
                    "vec_elem_op"@,
                    seq![temp_name(n2 + 1), av, bv, nat_text(size), seq!['\'', oc, '\'']],
                ),
                temp_name(n2 + 1),
                n2 + 1,
            ),
        ),
{
    lemma_gen_binary_step(m, op, a, b, n, code1, av, n1, code2, bv, n2);
    assert(char_literal(op_char(op)) =~= seq!['\'', oc, '\'']);
    if op == BinaryOp::Add || op == BinaryOp::Sub {
        lemma_gen_arithmetic_step(
            m,
            op,
            a,
            b,
            spec_infer(m, a)->Ok_0,
            spec_infer(m, b)->Ok_0,
            code1 + code2,
            av,
            bv,
            n2,
        );
    }
}

/// Every expression of `s` is a number literal.
pub open spec fn all_number_literals(s: Seq<SpecExpr>) -> bool {
    forall|i: int| 0 <= i < s.len() ==> #[trigger] s[i] is Number
}

/// The C texts of the number literals of `s`, in order.
pub open spec fn literal_texts(s: Seq<SpecExpr>) -> Seq<Seq<char>> {
    Seq::new(s.len(), |i: int| number_text(s[i]->Number_0))
}

/// `, ` before a list of values unless it opens the literal or is empty.
pub open spec fn separator_before(first: bool, nonempty: bool) -> Seq<char> {
    if !first && nonempty {
        ", "@
    } else {
        seq![]
    }
}

#[verifier::spinoff_prover]
proof fn lemma_comma_list_concat(a: Seq<Seq<char>>, b: Seq<Seq<char>>)
    requires
        a.len() > 0,
        b.len() > 0,
    ensures
        comma_list(a + b) == comma_list(a) + ", "@ + comma_list(b),
    decreases b.len(),
{
    let ab = a + b;
    let front = a + b.drop_last();
    assert(ab.drop_last() =~= front);
    assert(ab.last() == b.last());
    assert(comma_list(ab) == comma_list(front) + ", "@ + b.last());
    if b.len() == 1 {
        assert(front =~= a);
        assert(comma_list(b) == b.last());
    } else {
        lemma_comma_list_concat(a, b.drop_last());
        let x = comma_list(a);
        let y = comma_list(b.drop_last());
        assert(comma_list(b) == y + ", "@ + b.last());
        assert(x + ", "@ + y + ", "@ + b.last() =~= x + ", "@ + (y + ", "@ + b.last()));
    }
}

proof fn lemma_literal_texts_concat(a: Seq<SpecExpr>, b: Seq<SpecExpr>)
    ensures
        literal_texts(a + b) =~= literal_texts(a) + literal_texts(b),
{
}

proof fn lemma_gen_number_elements(m: Map<Seq<char>, ResolvedType>, elems: Seq<SpecExpr>, n: nat)
    requires
        all_number_literals(elems),
    ensures
        gen_vector_elements(m, elems, n) == Ok::<(Seq<char>, nat), SpecGenError>(
            (comma_list(literal_texts(elems)), n),
        ),
    decreases elems.len(),
{
    if elems.len() > 0 {
        let tail = elems.subrange(1, elems.len() as int);
        assert(elems[0] is Number);
        assert forall|i: int| 0 <= i < tail.len() implies #[trigger] tail[i] is Number by {
            assert(tail[i] == elems[i + 1]);
        }
        lemma_gen_number_elements(m, tail, n);
        let v = number_text(elems[0]->Number_0);
        assert(gen_expr(m, elems[0], n) == Ok::<(Seq<char>, Seq<char>, nat), SpecGenError>(
            (seq![], v, n),
        ));
        assert(literal_texts(elems) =~= seq![v] + literal_texts(tail));
        if tail.len() > 0 {
            lemma_comma_list_concat(seq![v], literal_texts(tail));
            assert(comma_list(seq![v]) == v);
            assert(seq![] + v + ", "@ + comma_list(literal_texts(tail)) =~= v + ", "@ + comma_list(
                literal_texts(tail),
            ));
        } else {
            assert(literal_texts(elems) =~= seq![v]);
            assert(seq![] + v + seq![] + seq![] =~= v);
        }
    }
}

proof fn lemma_gen_number_row(
    m: Map<Seq<char>, ResolvedType>,
    row: Seq<SpecExpr>,
    first: bool,
    n: nat,
)
    requires
        all_number_literals(row),
    ensures
        gen_matrix_row(m, row, first, n) == Ok::<(Seq<char>, bool, nat), SpecGenError>(
            (
                separator_before(first, row.len() > 0) + comma_list(literal_texts(row)),
                first && row.len() == 0,
                n,
            ),
        ),
    decreases row.len(),
{
    if row.len() == 0 {
        assert(literal_texts(row) =~= Seq::<Seq<char>>::empty());
        assert(separator_before(first, false) + comma_list(literal_texts(row)) =~= seq![]);
    } else {
        let tail = row.subrange(1, row.len() as int);
        assert(row[0] is Number);
        assert forall|i: int| 0 <= i < tail.len() implies #[trigger] tail[i] is Number by {
            assert(tail[i] == row[i + 1]);
        }
        lemma_gen_number_row(m, tail, false, n);
        let v = number_text(row[0]->Number_0);
        assert(gen_expr(m, row[0], n) == Ok::<(Seq<char>, Seq<char>, nat), SpecGenError>(
            (seq![], v, n),
        ));
        let sep = separator_before(first, true);
        assert(literal_texts(row) =~= seq![v] + literal_texts(tail));
        if tail.len() > 0 {
            lemma_comma_list_concat(seq![v], literal_texts(tail));
            assert(comma_list(seq![v]) == v);
            assert(sep + seq![] + v + (", "@ + comma_list(literal_texts(tail))) =~= sep + (v + ", "@
                + comma_list(literal_texts(tail))));
        } else {
            assert(literal_texts(row) =~= seq![v]);
            assert(separator_before(false, false) + comma_list(literal_texts(tail)) =~= seq![]);
            assert(sep + seq![] + v + seq![] =~= sep + v);
        }
    }
}

#[verifier::spinoff_prover]
proof fn lemma_gen_number_rows(
    m: Map<Seq<char>, ResolvedType>,
    rows: Seq<Seq<SpecExpr>>,
    first: bool,
    n: nat,
)
    requires
        forall|i: int| 0 <= i < rows.len() ==> all_number_literals(#[trigger] rows[i]),
    ensures
        gen_matrix_rows(m, rows, first, n) == Ok::<(Seq<char>, bool, nat), SpecGenError>(
            (
                separator_before(first, rows.flatten().len() > 0) + comma_list(
                    literal_texts(rows.flatten()),
                ),
                first && rows.flatten().len() == 0,
                n,
            ),
        ),
    decreases rows.len(),
{
    if rows.len() == 0 {
        assert(literal_texts(rows.flatten()) =~= Seq::<Seq<char>>::empty());
        assert(separator_before(first, false) + comma_list(Seq::<Seq<char>>::empty()) =~= seq![]);
    } else {
        let r0 = rows[0];
        let tail = rows.subrange(1, rows.len() as int);
        assert(tail =~= rows.drop_first());
        assert(rows.flatten() == r0 + tail.flatten());
        assert(all_number_literals(r0));
        assert forall|i: int| 0 <= i < tail.len() implies all_number_literals(#[trigger] tail[i]) by {
            assert(tail[i] == rows[i + 1]);
        }
        lemma_gen_number_row(m, r0, first, n);
        let f1 = first && r0.len() == 0;
        lemma_gen_number_rows(m, tail, f1, n);
        let tf = tail.flatten();
        lemma_literal_texts_concat(r0, tf);
        let a = separator_before(first, r0.len() > 0) + comma_list(literal_texts(r0));
        let b = separator_before(f1, tf.len() > 0) + comma_list(literal_texts(tf));
        if r0.len() == 0 {
            assert(literal_texts(r0) =~= Seq::<Seq<char>>::empty());
            assert(literal_texts(rows.flatten()) =~= literal_texts(tf));
            assert(a =~= seq![]);
            assert(a + b =~= b);
        } else if tf.len() == 0 {
            assert(literal_texts(tf) =~= Seq::<Seq<char>>::empty());
            assert(literal_texts(rows.flatten()) =~= literal_texts(r0));
            assert(b =~= seq![]);
            assert(a + b =~= a);
        } else {
            lemma_comma_list_concat(literal_texts(r0), literal_texts(tf));
            assert(a + b =~= separator_before(first, true) + (comma_list(literal_texts(r0)) + ", "@
                + comma_list(literal_texts(tf))));
        }
    }
}

proof fn lemma_flatten_rectangular_len(rows: Seq<Seq<SpecExpr>>, c: nat)
    requires
        forall|i: int| 0 <= i < rows.len() ==> (#[trigger] rows[i]).len() == c,
    ensures
        rows.flatten().len() == rows.len() * c,
    decreases rows.len(),
{
    if rows.len() > 0 {
        let tail = rows.drop_first();
        assert forall|i: int| 0 <= i < tail.len() implies (#[trigger] tail[i]).len() == c by {
            assert(tail[i] == rows[i + 1]);
        }
        lemma_flatten_rectangular_len(tail, c);
        assert(rows.len() * c == (rows.len() - 1) * c + c) by (nonlinear_arith)
            requires
                rows.len() > 0,
        ;
    }
}

/// A vector literal of numbers is written as one C array declaration: the
/// next temporary, sized by the number of elements, initialized with the
/// numbers' texts in order, separated by `, `.
pub proof fn law_vector_literal_code(m: Map<Seq<char>, ResolvedType>, elems: Seq<SpecExpr>, n: nat)
    requires
        all_number_literals(elems),
        n + 1 <= usize::MAX,
    ensures
        gen_expr(m, SpecExpr::Vector(elems), n) == Ok::<(Seq<char>, Seq<char>, nat), SpecGenError>(
            (
                "    double "@ + temp_name(n + 1) + "["@ + nat_text(elems.len()) + "] = {"@
                    + comma_list(literal_texts(elems)) + "};\n"@,
                temp_name(n + 1),
                n + 1,
            ),
        ),
{
    lemma_gen_number_elements(m, elems, n + 1);
}

/// A matrix literal of numbers is written as one C array declaration: the
/// next temporary, sized by the number of rows times the length of the first
/// row, initialized with all numbers' texts row by row, separated by `, `.
/// When every row is as long as the first, the array holds exactly the
/// values written into it.
#[verifier::spinoff_prover]
pub proof fn law_matrix_literal_code(
    m: Map<Seq<char>, ResolvedType>,
    rows: Seq<Seq<SpecExpr>>,
    n: nat,
)
    requires
        forall|i: int| 0 <= i < rows.len() ==> all_number_literals(#[trigger] rows[i]),
        rows.len() <= usize::MAX,
        rows.len() > 0 ==> rows[0].len() <= usize::MAX,
        rows.len() * (if rows.len() > 0 {
            rows[0].len()
        } else {
            0
        }) <= usize::MAX,
        n + 1 <= usize::MAX,
    ensures
        gen_expr(m, SpecExpr::Matrix(rows), n) == Ok::<(Seq<char>, Seq<char>, nat), SpecGenError>(
            (
                "    double "@ + temp_name(n + 1) + "["@ + nat_text(
                    rows.len() * (if rows.len() > 0 {
                        rows[0].len()
                    } else {
                        0
                    }),
                ) + "] = {"@ + comma_list(literal_texts(rows.flatten())) + "};\n"@,
                temp_name(n + 1),
                n + 1,
            ),
        ),
        literal_texts(rows.flatten()).len() == rows.flatten().len(),
        (forall|i: int| 0 <= i < rows.len() ==> (#[trigger] rows[i]).len() == rows[0].len())
            ==> rows.flatten().len() == rows.len() * (if rows.len() > 0 {
            rows[0].len()
        } else {
            0
        }),
{
    lemma_gen_number_rows(m, rows, true, n + 1);
    let cols: nat = if rows.len() > 0 {
        rows[0].len()
    } else {
        0
    };
    assert(separator_before(true, rows.flatten().len() > 0) =~= seq![]);
    if forall|i: int| 0 <= i < rows.len() ==> (#[trigger] rows[i]).len() == rows[0].len() {
        lemma_flatten_rectangular_len(rows, cols);
    }
}

proof fn lemma_nat_text_len(n: nat)
    ensures
        nat_text(n).len() >= 1,
        n >= 10 ==> nat_text(n).len() >= 2,
    decreases n,
{
    if n >= 10 {
        lemma_nat_text_len(n / 10);
    }
}

proof fn lemma_digit_char_injective(d1: nat, d2: nat)
    requires
        d1 < 10,
        d2 < 10,
        digit_char(d1) == digit_char(d2),
    ensures
        d1 == d2,
{
    assert(digit_char(d1) as int == 48 + d1);
    assert(digit_char(d2) as int == 48 + d2);
}

proof fn lemma_nat_text_injective(a: nat, b: nat)
    requires
        nat_text(a) == nat_text(b),
    ensures
        a == b,
    decreases a,
{
    lemma_nat_text_len(a);
    lemma_nat_text_len(b);
    if a < 10 && b < 10 {
        assert(nat_text(a) == seq![digit_char(a)]);
        assert(nat_text(b) == seq![digit_char(b)]);
        assert(seq![digit_char(a)][0] == digit_char(a));
        assert(seq![digit_char(b)][0] == digit_char(b));
        assert(digit_char(a) == digit_char(b));
        lemma_digit_char_injective(a, b);
    } else if a >= 10 && b >= 10 {
        let ta = nat_text(a);
        assert(ta.last() == digit_char(a % 10));
        assert(nat_text(b).last() == digit_char(b % 10));
        lemma_digit_char_injective(a % 10, b % 10);
        assert(nat_text(a / 10) =~= ta.drop_last());
        assert(nat_text(b / 10) =~= nat_text(b).drop_last());
        lemma_nat_text_injective(a / 10, b / 10);
    } else {
        assert(nat_text(a).len() != nat_text(b).len());
    }
}


/// Generation only moves the temporary counter forward: the temporaries of
/// each statement are numbered after those of the statements before it.
pub proof fn law_counter_only_grows(m: Map<Seq<char>, ResolvedType>, stmts: Seq<SpecStatement>, n: nat)
    ensures
        gen_statements(m, stmts, n) matches Ok((_, k)) ==> n <= k,
    decreases stmts.len(),
{
    if stmts.len() > 0 {
        let first = stmts[0];
        match first {
            SpecStatement::Let { value, .. } => law_expression_counter_only_grows(m, value, n),
            SpecStatement::Expression(e) => law_expression_counter_only_grows(m, e, n),
        }
        match gen_statement(m, first, n) {
            Ok((_, n1)) => law_counter_only_grows(m, stmts.subrange(1, stmts.len() as int), n1),
            Err(_) => {},
        }
    }
}

/// Generating one expression only moves the temporary counter forward, so
/// the temporaries it takes are numbered after every earlier one.
pub proof fn law_expression_counter_only_grows(m: Map<Seq<char>, ResolvedType>, e: SpecExpr, n: nat)
    ensures
        gen_expr(m, e, n) matches Ok((_, _, k)) ==> n <= k,
    decreases e,
{
    match e {
        SpecExpr::Vector(elems) => lemma_gen_vector_elements_counter(m, elems, n + 1),
        SpecExpr::Matrix(rows) => lemma_gen_matrix_rows_counter(m, rows, true, n + 1),
        SpecExpr::Slice { target, .. } => law_expression_counter_only_grows(m, *target, n),
        SpecExpr::MatrixSlice { target, .. } => law_expression_counter_only_grows(m, *target, n),
        SpecExpr::Binary { op, left, right } => {
            law_expression_counter_only_grows(m, *left, n);
            match gen_expr(m, *left, n) {
                Ok((_, _, n1)) => law_expression_counter_only_grows(m, *right, n1),
                Err(_) => {},
            }
        },
        SpecExpr::Call { callee, args } => lemma_gen_call_counter(m, callee, args, n),
        _ => {},
    }
}

proof fn lemma_gen_vector_elements_counter(m: Map<Seq<char>, ResolvedType>, elems: Seq<SpecExpr>, n: nat)
    ensures
        gen_vector_elements(m, elems, n) matches Ok((_, k)) ==> n <= k,
    decreases elems,
{
    if elems.len() > 0 {
        law_expression_counter_only_grows(m, elems[0], n);
        match gen_expr(m, elems[0], n) {
            Ok((_, _, n1)) => lemma_gen_vector_elements_counter(m, elems.subrange(1, elems.len() as int), n1),
            Err(_) => {},
        }
    }
}

proof fn lemma_gen_matrix_row_counter(m: Map<Seq<char>, ResolvedType>, row: Seq<SpecExpr>, first: bool, n: nat)
    ensures
        gen_matrix_row(m, row, first, n) matches Ok((_, _, k)) ==> n <= k,
    decreases row,
{
    if row.len() > 0 {
        law_expression_counter_only_grows(m, row[0], n);
        match gen_expr(m, row[0], n) {
            Ok((_, _, n1)) => lemma_gen_matrix_row_counter(m, row.subrange(1, row.len() as int), false, n1),
            Err(_) => {},
        }
    }
}

proof fn lemma_gen_matrix_rows_counter(
    m: Map<Seq<char>, ResolvedType>,
    rows: Seq<Seq<SpecExpr>>,
    first: bool,
    n: nat,
)
    ensures
        gen_matrix_rows(m, rows, first, n) matches Ok((_, _, k)) ==> n <= k,
    decreases rows,
{
    if rows.len() > 0 {
        lemma_gen_matrix_row_counter(m, rows[0], first, n);
        match gen_matrix_row(m, rows[0], first, n) {
            Ok((_, f, n1)) => lemma_gen_matrix_rows_counter(m, rows.subrange(1, rows.len() as int), f, n1),
            Err(_) => {},
        }
    }
}

proof fn lemma_gen_call_counter(m: Map<Seq<char>, ResolvedType>, callee: Seq<char>, args: Seq<SpecExpr>, n: nat)
    ensures
        gen_call(m, callee, args, n) matches Ok((_, _, k)) ==> n <= k,
    decreases args,
{
    if args.len() > 0 {
        law_expression_counter_only_grows(m, args[0], n);
        if args.len() == 2 {
            match gen_expr(m, args[0], n) {
                Ok((_, _, n1)) => law_expression_counter_only_grows(m, args[1], n1),
                Err(_) => {},
            }
        }
    }
}


/// A generation result that succeeded, or failed only because a size or the
/// temporary counter does not fit in a `usize`.
pub open spec fn only_size_errors<A>(r: Result<A, SpecGenError>) -> bool {
    match r {
        Ok(_) => true,
        Err(e) => e is SizeOverflow,
    }
}

/// An expression that checks is generated unless a size overflows.
pub proof fn lemma_gen_expr_ok(m: Map<Seq<char>, ResolvedType>, e: SpecExpr, n: nat)
    requires
        spec_infer(m, e) is Ok,
    ensures
        only_size_errors(gen_expr(m, e, n)),
    decreases e,
{
    match e {
        SpecExpr::Vector(elems) => lemma_gen_vector_elements_ok(m, elems, n + 1),
        SpecExpr::Matrix(rows) => lemma_gen_matrix_rows_ok(m, rows, true, n + 1),
        SpecExpr::Slice { target, .. } => lemma_gen_expr_ok(m, *target, n),
        SpecExpr::MatrixSlice { target, .. } => lemma_gen_expr_ok(m, *target, n),
        SpecExpr::Binary { op, left, right } => {
            lemma_gen_expr_ok(m, *left, n);
            if op != BinaryOp::Pipe {
                match gen_expr(m, *left, n) {
                    Ok((_, _, n1)) => lemma_gen_expr_ok(m, *right, n1),
                    Err(_) => {},
                }
            }
        },
        SpecExpr::Call { callee, args } => lemma_gen_call_ok(m, callee, args, n),
        _ => {},
    }
}

proof fn lemma_gen_vector_elements_ok(m: Map<Seq<char>, ResolvedType>, elems: Seq<SpecExpr>, n: nat)
    requires
        check_exprs(m, elems) is Ok,
    ensures
        only_size_errors(gen_vector_elements(m, elems, n)),
    decreases elems,
{
    if elems.len() > 0 {
        lemma_gen_expr_ok(m, elems[0], n);
        match gen_expr(m, elems[0], n) {
            Ok((_, _, n1)) => lemma_gen_vector_elements_ok(m, elems.subrange(1, elems.len() as int), n1),
            Err(_) => {},
        }
    }
}

proof fn lemma_gen_matrix_row_ok(m: Map<Seq<char>, ResolvedType>, row: Seq<SpecExpr>, first: bool, n: nat)
    requires
        check_exprs(m, row) is Ok,
    ensures
        only_size_errors(gen_matrix_row(m, row, first, n)),
    decreases row,
{
    if row.len() > 0 {
        lemma_gen_expr_ok(m, row[0], n);
        match gen_expr(m, row[0], n) {
            Ok((_, _, n1)) => lemma_gen_matrix_row_ok(m, row.subrange(1, row.len() as int), false, n1),
            Err(_) => {},
        }
    }
}

proof fn lemma_gen_matrix_rows_ok(
    m: Map<Seq<char>, ResolvedType>,
    rows: Seq<Seq<SpecExpr>>,
    first: bool,
    n: nat,
)
    requires
        check_rows(m, rows) is Ok,
    ensures
        only_size_errors(gen_matrix_rows(m, rows, first, n)),
    decreases rows,
{
    if rows.len() > 0 {
        lemma_gen_matrix_row_ok(m, rows[0], first, n);
        match gen_matrix_row(m, rows[0], first, n) {
            Ok((_, f, n1)) => lemma_gen_matrix_rows_ok(m, rows.subrange(1, rows.len() as int), f, n1),
            Err(_) => {},
        }
    }
}

proof fn lemma_gen_call_ok(m: Map<Seq<char>, ResolvedType>, callee: Seq<char>, args: Seq<SpecExpr>, n: nat)
    requires
        spec_infer(m, SpecExpr::Call { callee, args }) is Ok,
    ensures
        only_size_errors(gen_call(m, callee, args, n)),
    decreases args,
{
    lemma_builtin_names();
    if callee == "print"@ && args.len() > 0 {
        lemma_gen_expr_ok(m, args[0], n);
    } else if callee == "read_csv"@ && args.len() == 2 {
    } else if callee == "mse_loss"@ && args.len() == 2 {
        assert(spec_infer(m, args[0]) is Ok && spec_infer(m, args[1]) is Ok);
        lemma_gen_expr_ok(m, args[0], n);
        match gen_expr(m, args[0], n) {
            Ok((_, _, n1)) => lemma_gen_expr_ok(m, args[1], n1),
            Err(_) => {},
        }
    } else if (callee == "relu"@ || callee == "sigmoid"@ || callee == "transpose"@) && args.len() > 0 {
        lemma_gen_expr_ok(m, args[0], n);
    }
}

/// One statement that checks under `mi` is
/// generated under any larger table unless a size overflows.
proof fn lemma_gen_statement_ok(
    mi: Map<Seq<char>, ResolvedType>,
    mf: Map<Seq<char>, ResolvedType>,
    st: SpecStatement,
    n: nat,
)
    requires
        mi.submap_of(mf),
        match st {
            SpecStatement::Let { value, .. } => spec_infer(mi, value) is Ok,
            SpecStatement::Expression(e) => spec_infer(mi, e) is Ok,
        },
    ensures
        only_size_errors(gen_statement(mf, st, n)),
{
    match st {
        SpecStatement::Let { value, .. } => {
            lemma_infer_monotone(mi, mf, value);
            lemma_gen_expr_ok(mf, value, n);
        },
        SpecStatement::Expression(e) => {
            lemma_infer_monotone(mi, mf, e);
            lemma_gen_expr_ok(mf, e, n);
        },
    }
}

/// `lets_fresh` of statements holds of the statements after the first,
/// under the table extended with the first one's binding.
proof fn lemma_lets_fresh_rest(m: Map<Seq<char>, ResolvedType>, stmts: Seq<SpecStatement>, t: ResolvedType)
    requires
        stmts.len() > 0,
        lets_fresh(m, stmts),
    ensures
        ({
            let rest = stmts.subrange(1, stmts.len() as int);
            &&& lets_fresh(m, rest)
            &&& stmts[0] matches SpecStatement::Let { name, .. } ==> !m.contains_key(name) && lets_fresh(
                m.insert(name, t),
                rest,
            )
        }),
{
    let rest = stmts.subrange(1, stmts.len() as int);
    assert forall|j: int| 0 <= j < rest.len() && #[trigger] rest[j] is Let implies !m.contains_key(
        rest[j]->Let_name,
    ) by {
        assert(rest[j] == stmts[j + 1]);
    }
    assert forall|i: int, j: int|
        0 <= i < j < rest.len() && #[trigger] rest[i] is Let && #[trigger] rest[j] is Let implies rest[i]->Let_name
            != rest[j]->Let_name by {
        assert(rest[i] == stmts[i + 1]);
        assert(rest[j] == stmts[j + 1]);
    }
    if stmts[0] is Let {
        let name = stmts[0]->Let_name;
        assert(!m.contains_key(name));
        assert forall|j: int| 0 <= j < rest.len() && #[trigger] rest[j] is Let implies !m.insert(
            name,
            t,
        ).contains_key(rest[j]->Let_name) by {
            assert(rest[j] == stmts[j + 1]);
            assert(stmts[0] is Let && stmts[j + 1] is Let);
        }
    }
}

/// Statements that check from table `mi` to table `mf`, with fresh `let`
/// names, are generated under `mf` unless a
/// size overflows; and `mf` extends `mi`.
pub proof fn lemma_gen_statements_ok(
    mi: Map<Seq<char>, ResolvedType>,
    mf: Map<Seq<char>, ResolvedType>,
    stmts: Seq<SpecStatement>,
    n: nat,
)
    requires
        check_statements(mi, stmts) == Ok::<Map<Seq<char>, ResolvedType>, SpecCheckError>(mf),
        lets_fresh(mi, stmts),
    ensures
        mi.submap_of(mf),
        only_size_errors(gen_statements(mf, stmts, n)),
    decreases stmts.len(),
{
    if stmts.len() == 0 {
        assert(mi == mf);
    } else {
        let rest = stmts.subrange(1, stmts.len() as int);
        let first = stmts[0];
        let m1 = match first {
            SpecStatement::Let { name, value, .. } => mi.insert(name, spec_infer(mi, value)->Ok_0),
            SpecStatement::Expression(_) => mi,
        };
        assert(check_statements(m1, rest) == Ok::<Map<Seq<char>, ResolvedType>, SpecCheckError>(mf));
        lemma_lets_fresh_rest(mi, stmts, spec_infer(mi, first->Let_value)->Ok_0);
        assert(lets_fresh(m1, rest));
        lemma_gen_statements_ok(m1, mf, rest, n);
        assert(mi.submap_of(m1)) by {
            assert forall|k: Seq<char>| #[trigger] mi.dom().contains(k) implies m1.dom().contains(k)
                && mi[k] == m1[k] by {
                if first is Let {
                    assert(!mi.contains_key(first->Let_name));
                }
            }
        }
        vstd::map_lib::lemma_submap_of_trans(mi, m1, mf);
        lemma_gen_statement_ok(mi, mf, first, n);
        lemma_gen_statements_step(mf, stmts, n);
        match gen_statement(mf, first, n) {
            Ok((_, n1)) => lemma_gen_statements_ok(m1, mf, rest, n1),
            Err(_) => {},
        }
    }
}

/// How `gen_statements` unfolds on a non-empty list.
proof fn lemma_gen_statements_step(m: Map<Seq<char>, ResolvedType>, stmts: Seq<SpecStatement>, n: nat)
    requires
        stmts.len() > 0,
    ensures
        gen_statements(m, stmts, n) == match gen_statement(m, stmts[0], n) {
            Ok((c, n1)) => match gen_statements(m, stmts.subrange(1, stmts.len() as int), n1) {
                Ok((rest, n2)) => Ok((c + rest, n2)),
                Err(err) => Err(err),
            },
            Err(err) => Err(err),
        },
{
}

} // verus!
