//! The C code generator.
use vstd::prelude::*;
use crate::ast::{
    exprs_model, lemma_exprs_model_index, lemma_rows_model_index, rows_model, BinaryOp, Expr,
    Program, SpecExpr, Statement,
};
use crate::checker::{CheckError, ResolvedType, TypeChecker};
use crate::chars::{push_char, text_is, usize_text};
use crate::codegen_spec::{
    call_line, char_literal, comma_list, difference, fresh, gen_arithmetic, gen_binary, gen_call,
    gen_elementwise, gen_expr, gen_generator_call, gen_let, gen_matmul, gen_matrix_fn,
    gen_matrix_row, gen_matrix_rows, gen_matrix_slice, gen_mse, gen_pipe, gen_print,
    gen_read_csv, gen_slice, gen_statement, gen_statements, gen_vector_elements, op_char, product,
    spec_generate, temp_name, type_of, zeroed_array, Generated, SpecGenError, EPILOGUE, PRELUDE,
};
use crate::numbers::{literal_to_usize, number_to_text};

verus! {

/// Why code generation stopped.
#[derive(Debug)]
pub enum GenError {
    Check(CheckError),
    SizeOverflow,
    ExpectedMatrixForSlice,
    UnsupportedMatMul,
    ElementwiseNonArray,
}

impl View for GenError {
    type V = SpecGenError;

    open spec fn view(&self) -> SpecGenError {
        match self {
            GenError::Check(e) => SpecGenError::Check(e@),
            GenError::SizeOverflow => SpecGenError::SizeOverflow,
            GenError::ExpectedMatrixForSlice => SpecGenError::ExpectedMatrixForSlice,
            GenError::UnsupportedMatMul => SpecGenError::UnsupportedMatMul,
            GenError::ElementwiseNonArray => SpecGenError::ElementwiseNonArray,
        }
    }
}

/// The models of a list of texts.
pub open spec fn texts_model(v: Seq<String>) -> Seq<Seq<char>> {
    v.map_values(|s: String| s@)
}

/// Appends the texts of `args` joined by `, `.
fn push_args(code: &mut String, args: &Vec<String>)
    ensures
        final(code)@ == old(code)@ + comma_list(texts_model(args@)),
{
    let ghost start = code@;
    let mut i: usize = 0;
    assert(start + comma_list(texts_model(args@.subrange(0, 0))) =~= start);
    while i < args.len()
        invariant
            i <= args@.len(),
            code@ == start + comma_list(texts_model(args@.subrange(0, i as int))),
        decreases args.len() - i,
    {
        let ghost prev = texts_model(args@.subrange(0, i as int));
        if i > 0 {
            code.append(", ");
        }
        code.append(args[i].as_str());
        i = i + 1;
        proof {
            let cur = texts_model(args@.subrange(0, i as int));
            assert(cur.drop_last() =~= prev);
            assert(cur.last() == args@[i - 1]@);
            if i == 1 {
                assert(prev =~= seq![]);
            }
            assert(code@ =~= start + comma_list(cur));
        }
    }
    assert(args@.subrange(0, i as int) =~= args@);
}

/// Appends `f(a, b, ...);` as a statement line.
fn push_call(code: &mut String, f: &str, args: &Vec<String>)
    ensures
        final(code)@ == old(code)@ + call_line(f@, texts_model(args@)),
{
    let ghost start = code@;
    code.append("    ");
    code.append(f);
    code.append("(");
    push_args(code, args);
    code.append(");\n");
    assert(code@ =~= start + call_line(f@, texts_model(args@)));
}

/// Appends `    double name[size] = {0};` as a line.
fn push_zeroed_array(code: &mut String, name: &String, size: usize)
    ensures
        final(code)@ == old(code)@ + zeroed_array(name@, size as nat),
{
    let ghost start = code@;
    code.append("    double ");
    code.append(name.as_str());
    code.append("[");
    code.append(usize_text(size).as_str());
    code.append("] = {0};\n");
    assert(code@ =~= start + zeroed_array(name@, size as nat));
}

/// The C character literal of an operator's character.
fn op_literal(op: BinaryOp) -> (s: String)
    ensures
        s@ == char_literal(op_char(op)),
{
    let c = match op {
        BinaryOp::Add | BinaryOp::ElementAdd => '+',
        BinaryOp::Sub | BinaryOp::ElementSub => '-',
        BinaryOp::Mul | BinaryOp::ElementMul => '*',
        _ => '/',
    };
    let mut s = String::new();
    push_char(&mut s, '\'');
    push_char(&mut s, c);
    push_char(&mut s, '\'');
    assert(s@ =~= char_literal(op_char(op)));
    s
}

/// The product of two sizes, if it fits.
fn checked_product(a: usize, b: usize) -> (r: Result<usize, GenError>)
    ensures
        match product(a, b) {
            Ok(p) => r == Ok::<usize, GenError>(p as usize),
            Err(e) => r matches Err(x) && x@ == e,
        },
{
    match a.checked_mul(b) {
        Some(p) => Ok(p),
        None => Err(GenError::SizeOverflow),
    }
}

/// `a - b`, if it is not negative.
fn checked_difference(a: usize, b: usize) -> (r: Result<usize, GenError>)
    ensures
        match difference(a, b) {
            Ok(d) => r == Ok::<usize, GenError>(d as usize),
            Err(e) => r matches Err(x) && x@ == e,
        },
{
    if b <= a {
        Ok(a - b)
    } else {
        Err(GenError::SizeOverflow)
    }
}

/// The type of `e`, with a checking error turned into a generation error.
fn type_of_expr(checker: &TypeChecker, e: &Expr) -> (r: Result<ResolvedType, GenError>)
    requires
        checker.wf(),
    ensures
        match type_of(checker@, e@) {
            Ok(t) => r == Ok::<ResolvedType, GenError>(t),
            Err(err) => r matches Err(x) && x@ == err,
        },
{
    match checker.try_infer_expression_type(e) {
        Ok(t) => Ok(t),
        Err(err) => Err(GenError::Check(err)),
    }
}

/// The C code generator: the count of temporaries taken so far.
pub struct CodeGenerator {
    var_counter: usize,
}

/// An exec generation result agrees with the spec one: the value, the code
/// appended to `code` (which held `before`), and the counter.
pub open spec fn generated(
    r: Result<String, GenError>,
    before: Seq<char>,
    code: Seq<char>,
    counter: nat,
    s: Generated,
) -> bool {
    match s {
        Ok((c, v, n1)) => r matches Ok(val) && val@ == v && code == before + c && counter == n1,
        Err(e) => r matches Err(x) && x@ == e,
    }
}

/// The code of a successful expression result (empty for an error).
pub open spec fn code_of(g: Generated) -> Seq<char> {
    match g {
        Ok((c, _, _)) => c,
        Err(_) => seq![],
    }
}

/// The code of a successful list result (empty for an error).
pub open spec fn list_code(g: Result<(Seq<char>, nat), SpecGenError>) -> Seq<char> {
    match g {
        Ok((c, _)) => c,
        Err(_) => seq![],
    }
}

/// The code of a successful row result (empty for an error).
pub open spec fn row_code(g: Result<(Seq<char>, bool, nat), SpecGenError>) -> Seq<char> {
    match g {
        Ok((c, _, _)) => c,
        Err(_) => seq![],
    }
}

impl CodeGenerator {
    /// The number of temporaries taken so far.
    pub closed spec fn counter(&self) -> nat {
        self.var_counter as nat
    }

    /// A generator that has taken no temporary.
    pub fn new() -> (g: Self)
        ensures
            g.counter() == 0,
    {
        CodeGenerator { var_counter: 0 }
    }

    /// Takes the next temporary name.
    fn new_temp(&mut self) -> (r: Result<String, GenError>)
        ensures
            match fresh(old(self).counter()) {
                Ok(n1) => r matches Ok(s) && s@ == temp_name(n1) && final(self).counter() == n1,
                Err(e) => r matches Err(x) && x@ == e,
            },
    {
        if self.var_counter == usize::MAX {
            return Err(GenError::SizeOverflow);
        }
        self.var_counter = self.var_counter + 1;
        let mut s = String::new();
        push_char(&mut s, 't');
        s.append(usize_text(self.var_counter).as_str());
        assert(s@ =~= temp_name(self.counter()));
        Ok(s)
    }
}

/// Code `d` in front of the code of a two-part generation result.
pub open spec fn prefix_code(d: Seq<char>, r: Result<(Seq<char>, nat), SpecGenError>) -> Result<
    (Seq<char>, nat),
    SpecGenError,
> {
    match r {
        Ok((c, k)) => Ok((d + c, k)),
        Err(e) => Err(e),
    }
}

/// Code `d` in front of the code of a row generation result.
pub open spec fn prefix_row_code(
    d: Seq<char>,
    r: Result<(Seq<char>, bool, nat), SpecGenError>,
) -> Result<(Seq<char>, bool, nat), SpecGenError> {
    match r {
        Ok((c, f, k)) => Ok((d + c, f, k)),
        Err(e) => Err(e),
    }
}

impl CodeGenerator {
    /// Appends the elements of a vector literal: each one's code and value,
    /// with `, ` between values.
    fn generate_vector_elements(&mut self, elems: &Vec<Expr>, code: &mut String, checker: &TypeChecker) -> (r: Result<(), GenError>)
        requires
            checker.wf(),
        ensures
            match gen_vector_elements(checker@, exprs_model(elems@), old(self).counter()) {
                Ok((c, k)) => r is Ok && final(code)@ == old(code)@ + c && final(self).counter() == k,
                Err(e) => r matches Err(x) && x@ == e,
            },
        decreases elems@,
    {
        let ghost m = checker@;
        let ghost em = exprs_model(elems@);
        let ghost start = code@;
        let ghost n = self.counter();
        proof {
            lemma_exprs_model_index(elems@);
        }
        let len = elems.len();
        let ghost mut done: Seq<char> = seq![];
        let mut i: usize = 0;
        assert(em.subrange(0, len as int) =~= em);
        assert(start + done =~= start);
        while i < len
            invariant
                checker.wf(),
                m == checker@,
                len == elems@.len(),
                em == exprs_model(elems@),
                em.len() == len,
                forall|j: int| 0 <= j < len ==> #[trigger] em[j] == elems@[j]@,
                i <= len,
                start == old(code)@,
                n == old(self).counter(),
                code@ == start + done,
                prefix_code(done, gen_vector_elements(m, em.subrange(i as int, len as int), self.counter()))
                    == gen_vector_elements(m, em, n),
            decreases len - i,
        {
            let ghost k = self.counter();
            let ghost before = code@;
            let ghost suffix = em.subrange(i as int, len as int);
            assert(suffix[0] == em[i as int]);
            assert(suffix.subrange(1, suffix.len() as int) =~= em.subrange(i + 1, len as int));
            let val = match self.generate_expr(&elems[i], code, checker) {
                Ok(v) => v,
                Err(e) => return Err(e),
            };
            let ghost c = code_of(gen_expr(m, em[i as int], k));
            code.append(val.as_str());
            if i < len - 1 {
                code.append(", ");
            }
            proof {
                let sep = if suffix.len() > 1 {
                    ", "@
                } else {
                    seq![]
                };
                let piece = c + val@ + sep;
                let old_done = done;
                done = done + piece;
                assert(code@ =~= start + done);
                match gen_vector_elements(m, em.subrange(i + 1, len as int), self.counter()) {
                    Ok((rest, k2)) => {
                        assert(old_done + (piece + rest) =~= done + rest);
                    },
                    Err(_) => {},
                }
            }
            i = i + 1;
        }
        assert(done + seq![] =~= done);
        Ok(())
    }

    /// Appends the elements of one matrix row; `first0` tells whether no
    /// element of the matrix has been written yet. Gives that flag after the row.
    fn generate_matrix_row(&mut self, row: &Vec<Expr>, first0: bool, code: &mut String, checker: &TypeChecker) -> (r: Result<bool, GenError>)
        requires
            checker.wf(),
        ensures
            match gen_matrix_row(checker@, exprs_model(row@), first0, old(self).counter()) {
                Ok((c, f, k)) => r == Ok::<bool, GenError>(f) && final(code)@ == old(code)@ + c && final(self).counter() == k,
                Err(e) => r matches Err(x) && x@ == e,
            },
        decreases row,
    {
        let ghost m = checker@;
        let ghost em = exprs_model(row@);
        let ghost start = code@;
        let ghost n = self.counter();
        proof {
            lemma_exprs_model_index(row@);
        }
        let len = row.len();
        let ghost mut done: Seq<char> = seq![];
        let mut first = first0;
        let mut i: usize = 0;
        assert(em.subrange(0, len as int) =~= em);
        assert(start + done =~= start);
        while i < len
            invariant
                checker.wf(),
                m == checker@,
                len == row@.len(),
                em == exprs_model(row@),
                em.len() == len,
                forall|j: int| 0 <= j < len ==> #[trigger] em[j] == row@[j]@,
                i <= len,
                start == old(code)@,
                n == old(self).counter(),
                code@ == start + done,
                prefix_row_code(done, gen_matrix_row(m, em.subrange(i as int, len as int), first, self.counter()))
                    == gen_matrix_row(m, em, first0, n),
            decreases len - i,
        {
            let ghost k = self.counter();
            let ghost suffix = em.subrange(i as int, len as int);
            assert(suffix[0] == em[i as int]);
            assert(suffix.subrange(1, suffix.len() as int) =~= em.subrange(i + 1, len as int));
            let ghost sep = if !first {
                ", "@
            } else {
                seq![]
            };
            if !first {
                code.append(", ");
            }
            let ghost before = code@;
            let val = match self.generate_expr(&row[i], code, checker) {
                Ok(v) => v,
                Err(e) => return Err(e),
            };
            let ghost c = code_of(gen_expr(m, em[i as int], k));
            code.append(val.as_str());
            first = false;
            proof {
                let piece = sep + c + val@;
                let old_done = done;
                done = done + piece;
                assert(code@ =~= start + done);
                match gen_matrix_row(m, em.subrange(i + 1, len as int), false, self.counter()) {
                    Ok((rest, f, k2)) => {
                        assert(old_done + (piece + rest) =~= done + rest);
                    },
                    Err(_) => {},
                }
            }
            i = i + 1;
        }
        assert(done + seq![] =~= done);
        Ok(first)
    }

    /// Appends the elements of all rows of a matrix literal, in order.
    fn generate_matrix_rows(&mut self, rows: &Vec<Vec<Expr>>, code: &mut String, checker: &TypeChecker) -> (r: Result<(), GenError>)
        requires
            checker.wf(),
        ensures
            match gen_matrix_rows(checker@, rows_model(rows@), true, old(self).counter()) {
                Ok((c, _, k)) => r is Ok && final(code)@ == old(code)@ + c && final(self).counter() == k,
                Err(e) => r matches Err(x) && x@ == e,
            },
        decreases rows@,
    {
        let ghost m = checker@;
        let ghost rm = rows_model(rows@);
        let ghost start = code@;
        let ghost n = self.counter();
        proof {
            lemma_rows_model_index(rows@);
        }
        let len = rows.len();
        let ghost mut done: Seq<char> = seq![];
        let mut first = true;
        let mut i: usize = 0;
        assert(rm.subrange(0, len as int) =~= rm);
        assert(start + done =~= start);
        while i < len
            invariant
                checker.wf(),
                m == checker@,
                len == rows@.len(),
                rm == rows_model(rows@),
                rm.len() == len,
                forall|j: int| 0 <= j < len ==> #[trigger] rm[j] == exprs_model(rows@[j]@),
                i <= len,
                start == old(code)@,
                n == old(self).counter(),
                code@ == start + done,
                prefix_row_code(done, gen_matrix_rows(m, rm.subrange(i as int, len as int), first, self.counter()))
                    == gen_matrix_rows(m, rm, true, n),
            decreases len - i,
        {
            let ghost suffix = rm.subrange(i as int, len as int);
            assert(suffix[0] == rm[i as int]);
            assert(suffix.subrange(1, suffix.len() as int) =~= rm.subrange(i + 1, len as int));
            let ghost k = self.counter();
            let ghost f0 = first;
            first = match self.generate_matrix_row(&rows[i], first, code, checker) {
                Ok(f) => f,
                Err(e) => return Err(e),
            };
            let ghost c = row_code(gen_matrix_row(m, rm[i as int], f0, k));
            proof {
                let old_done = done;
                done = done + c;
                match gen_matrix_rows(m, rm.subrange(i + 1, len as int), first, self.counter()) {
                    Ok((rest, f, k2)) => {
                        assert(old_done + (c + rest) =~= done + rest);
                    },
                    Err(_) => {},
                }
            }
            i = i + 1;
        }
        assert(done + seq![] =~= done);
        Ok(())
    }
}

impl CodeGenerator {
    /// The rest of a binary operator other than `|>` once both operands'
    /// code `pre` is written.
    fn finish_binary(
        &mut self,
        op: BinaryOp,
        left: &Expr,
        right: &Expr,
        code: &mut String,
        lv: String,
        rv: String,
        checker: &TypeChecker,
        Ghost(base): Ghost<Seq<char>>,
        Ghost(pre): Ghost<Seq<char>>,
    ) -> (r: Result<String, GenError>)
        requires
            checker.wf(),
            old(code)@ == base + pre,
            op != BinaryOp::Pipe,
        ensures
            generated(
                r,
                base,
                final(code)@,
                final(self).counter(),
                gen_binary(checker@, op, left@, right@, pre, lv@, rv@, old(self).counter()),
            ),
    {
        match op {
            BinaryOp::MatMul => self.finish_matmul(left, right, code, lv, rv, checker, Ghost(base), Ghost(pre)),
            BinaryOp::Add | BinaryOp::Sub | BinaryOp::Mul | BinaryOp::Div => {
                let lt = match type_of_expr(checker, left) {
                    Ok(t) => t,
                    Err(e) => return Err(e),
                };
                let rt = match type_of_expr(checker, right) {
                    Ok(t) => t,
                    Err(e) => return Err(e),
                };
                let t = match self.new_temp() {
                    Ok(t) => t,
                    Err(e) => return Err(e),
                };
                let opc = op_literal(op);
                self.finish_arithmetic(op, lt, rt, code, lv, rv, t, opc, Ghost(base), Ghost(pre))
            },
            _ => self.finish_elementwise(op, left, code, lv, rv, checker, Ghost(base), Ghost(pre)),
        }
    }

    /// The rest of `left @ right` once both operands' code `pre` is written.
    fn finish_matmul(
        &mut self,
        left: &Expr,
        right: &Expr,
        code: &mut String,
        lv: String,
        rv: String,
        checker: &TypeChecker,
        Ghost(base): Ghost<Seq<char>>,
        Ghost(pre): Ghost<Seq<char>>,
    ) -> (r: Result<String, GenError>)
        requires
            checker.wf(),
            old(code)@ == base + pre,
        ensures
            generated(
                r,
                base,
                final(code)@,
                final(self).counter(),
                gen_matmul(checker@, left@, right@, pre, lv@, rv@, old(self).counter()),
            ),
    {
        let lt = match type_of_expr(checker, left) {
            Ok(t) => t,
            Err(e) => return Err(e),
        };
        let rt = match type_of_expr(checker, right) {
            Ok(t) => t,
            Err(e) => return Err(e),
        };
        match (lt, rt) {
            (ResolvedType::Vector { len, .. }, ResolvedType::Matrix { cols, .. }) => {
                let t = match self.new_temp() {
                    Ok(t) => t,
                    Err(e) => return Err(e),
                };
                push_zeroed_array(code, &t, cols);
                let args = vec![t.clone(), lv, rv, usize_text(len), usize_text(cols)];
                assert(texts_model(args@) =~= seq![t@, lv@, rv@, crate::chars::nat_text(len as nat), crate::chars::nat_text(cols as nat)]);
                push_call(code, "vec_mat_mul", &args);
                assert(code@ =~= base + (pre + zeroed_array(t@, cols as nat) + call_line("vec_mat_mul"@, texts_model(args@))));
                Ok(t)
            },
            (
                ResolvedType::Matrix { rows: r1, cols: c1, .. },
                ResolvedType::Matrix { cols: c2, .. },
            ) => {
                let total = match checked_product(r1, c2) {
                    Ok(p) => p,
                    Err(e) => return Err(e),
                };
                let t = match self.new_temp() {
                    Ok(t) => t,
                    Err(e) => return Err(e),
                };
                push_zeroed_array(code, &t, total);
                let args = vec![t.clone(), lv, rv, usize_text(r1), usize_text(c1), usize_text(c2)];
                assert(texts_model(args@) =~= seq![t@, lv@, rv@, crate::chars::nat_text(r1 as nat), crate::chars::nat_text(c1 as nat), crate::chars::nat_text(c2 as nat)]);
                push_call(code, "mat_mat_mul", &args);
                assert(code@ =~= base + (pre + zeroed_array(t@, total as nat) + call_line("mat_mat_mul"@, texts_model(args@))));
                Ok(t)
            },
            _ => Err(GenError::UnsupportedMatMul),
        }
    }

    /// The rest of an element-wise operator once both operands' code `pre` is written.
    fn finish_elementwise(
        &mut self,
        op: BinaryOp,
        left: &Expr,
        code: &mut String,
        lv: String,
        rv: String,
        checker: &TypeChecker,
        Ghost(base): Ghost<Seq<char>>,
        Ghost(pre): Ghost<Seq<char>>,
    ) -> (r: Result<String, GenError>)
        requires
            checker.wf(),
            old(code)@ == base + pre,
        ensures
            generated(
                r,
                base,
                final(code)@,
                final(self).counter(),
                gen_elementwise(checker@, op, left@, pre, lv@, rv@, old(self).counter()),
            ),
    {
        let lt = match type_of_expr(checker, left) {
            Ok(t) => t,
            Err(e) => return Err(e),
        };
        let t = match self.new_temp() {
            Ok(t) => t,
            Err(e) => return Err(e),
        };
        let opc = op_literal(op);
        match lt {
            ResolvedType::Vector { len, .. } => {
                push_zeroed_array(code, &t, len);
                let args = vec![t.clone(), lv, rv, usize_text(len), opc];
                assert(texts_model(args@) =~= seq![t@, lv@, rv@, crate::chars::nat_text(len as nat), char_literal(op_char(op))]);
                push_call(code, "vec_elem_op", &args);
                assert(code@ =~= base + (pre + zeroed_array(t@, len as nat) + call_line("vec_elem_op"@, texts_model(args@))));
                Ok(t)
            },
            ResolvedType::Matrix { rows, cols, .. } => {
                let total = match checked_product(rows, cols) {
                    Ok(p) => p,
                    Err(e) => return Err(e),
                };
                push_zeroed_array(code, &t, total);
                let args = vec![t.clone(), lv, rv, usize_text(total), opc];
                assert(texts_model(args@) =~= seq![t@, lv@, rv@, crate::chars::nat_text(total as nat), char_literal(op_char(op))]);
                push_call(code, "vec_elem_op", &args);
                assert(code@ =~= base + (pre + zeroed_array(t@, total as nat) + call_line("vec_elem_op"@, texts_model(args@))));
                Ok(t)
            },
            _ => Err(GenError::ElementwiseNonArray),
        }
    }

    /// `+ - * /` once both operand types are known and the temporary `t` is taken.
    #[verifier::rlimit(100)]
    fn finish_arithmetic(
        &mut self,
        op: BinaryOp,
        lt: ResolvedType,
        rt: ResolvedType,
        code: &mut String,
        lv: String,
        rv: String,
        t: String,
        opc: String,
        Ghost(base): Ghost<Seq<char>>,
        Ghost(pre): Ghost<Seq<char>>,
    ) -> (r: Result<String, GenError>)
        requires
            old(code)@ == base + pre,
            t@ == temp_name(old(self).counter()),
            opc@ == char_literal(op_char(op)),
        ensures
            final(self).counter() == old(self).counter(),
            generated(
                r,
                base,
                final(code)@,
                final(self).counter(),
                gen_arithmetic(op, lt, rt, pre, lv@, rv@, old(self).counter()),
            ),
    {
        let ghost opv = char_literal(op_char(op));
        match (lt, rt) {
            (ResolvedType::Matrix { rows: r1, cols: c1, .. }, ResolvedType::Matrix { cols: c2, .. }) => {
                if matches!(op, BinaryOp::Mul) {
                    let total = match checked_product(r1, c2) {
                        Ok(p) => p,
                        Err(e) => return Err(e),
                    };
                    push_zeroed_array(code, &t, total);
                    let args = vec![t.clone(), lv, rv, usize_text(r1), usize_text(c1), usize_text(c2)];
                    assert(texts_model(args@) =~= seq![t@, lv@, rv@, crate::chars::nat_text(r1 as nat), crate::chars::nat_text(c1 as nat), crate::chars::nat_text(c2 as nat)]);
                    push_call(code, "mat_mat_mul", &args);
                    assert(code@ =~= base + (pre + zeroed_array(t@, total as nat) + call_line("mat_mat_mul"@, texts_model(args@))));
                    Ok(t)
                } else if matches!(op, BinaryOp::Add | BinaryOp::Sub) {
                    let total = match checked_product(r1, c1) {
                        Ok(p) => p,
                        Err(e) => return Err(e),
                    };
                    push_zeroed_array(code, &t, total);
                    let args = vec![t.clone(), lv, rv, usize_text(total), opc];
                    assert(texts_model(args@) =~= seq![t@, lv@, rv@, crate::chars::nat_text(total as nat), opv]);
                    push_call(code, "vec_elem_op", &args);
                    assert(code@ =~= base + (pre + zeroed_array(t@, total as nat) + call_line("vec_elem_op"@, texts_model(args@))));
                    Ok(t)
                } else {
                    Ok(infix_text(op, &lv, &rv))
                }
            },
            (ResolvedType::Vector { len, .. }, ResolvedType::F64) => {
                push_zeroed_array(code, &t, len);
                let args = vec![t.clone(), lv, rv, usize_text(len), opc, String::from_str("0")];
                assert(texts_model(args@) =~= seq![t@, lv@, rv@, crate::chars::nat_text(len as nat), opv, "0"@]);
                push_call(code, "vec_broadcast_op", &args);
                assert(code@ =~= base + (pre + zeroed_array(t@, len as nat) + call_line("vec_broadcast_op"@, texts_model(args@))));
                Ok(t)
            },
            (ResolvedType::F64, ResolvedType::Vector { len, .. }) => {
                push_zeroed_array(code, &t, len);
                let args = vec![t.clone(), rv, lv, usize_text(len), opc, String::from_str("1")];
                assert(texts_model(args@) =~= seq![t@, rv@, lv@, crate::chars::nat_text(len as nat), opv, "1"@]);
                push_call(code, "vec_broadcast_op", &args);
                assert(code@ =~= base + (pre + zeroed_array(t@, len as nat) + call_line("vec_broadcast_op"@, texts_model(args@))));
                Ok(t)
            },
            (ResolvedType::Matrix { rows, cols, .. }, ResolvedType::F64) => {
                let total = match checked_product(rows, cols) {
                    Ok(p) => p,
                    Err(e) => return Err(e),
                };
                push_zeroed_array(code, &t, total);
                let args = vec![t.clone(), lv, rv, usize_text(total), opc, String::from_str("0")];
                assert(texts_model(args@) =~= seq![t@, lv@, rv@, crate::chars::nat_text(total as nat), opv, "0"@]);
                push_call(code, "vec_broadcast_op", &args);
                assert(code@ =~= base + (pre + zeroed_array(t@, total as nat) + call_line("vec_broadcast_op"@, texts_model(args@))));
                Ok(t)
            },
            (ResolvedType::F64, ResolvedType::Matrix { rows, cols, .. }) => {
                let total = match checked_product(rows, cols) {
                    Ok(p) => p,
                    Err(e) => return Err(e),
                };
                push_zeroed_array(code, &t, total);
                let args = vec![t.clone(), rv, lv, usize_text(total), opc, String::from_str("1")];
                assert(texts_model(args@) =~= seq![t@, rv@, lv@, crate::chars::nat_text(total as nat), opv, "1"@]);
                push_call(code, "vec_broadcast_op", &args);
                assert(code@ =~= base + (pre + zeroed_array(t@, total as nat) + call_line("vec_broadcast_op"@, texts_model(args@))));
                Ok(t)
            },
            _ => Ok(infix_text(op, &lv, &rv)),
        }
    }
}

/// `(l op r)`: an operation the C compiler evaluates itself.
fn infix_text(op: BinaryOp, l: &String, r: &String) -> (s: String)
    ensures
        s@ == "("@ + l@ + seq![' ', op_char(op), ' '] + r@ + ")"@,
{
    let c = match op {
        BinaryOp::Add | BinaryOp::ElementAdd => '+',
        BinaryOp::Sub | BinaryOp::ElementSub => '-',
        BinaryOp::Mul | BinaryOp::ElementMul => '*',
        _ => '/',
    };
    let mut s = String::from_str("(");
    s.append(l.as_str());
    push_char(&mut s, ' ');
    push_char(&mut s, c);
    push_char(&mut s, ' ');
    s.append(r.as_str());
    s.append(")");
    assert(s@ =~= "("@ + l@ + seq![' ', op_char(op), ' '] + r@ + ")"@);
    s
}

impl CodeGenerator {
    /// The rest of a vector slice once the target's code `pre` is written.
    fn finish_slice(
        &mut self,
        code: &mut String,
        v: String,
        start: usize,
        end: usize,
        Ghost(base): Ghost<Seq<char>>,
        Ghost(pre): Ghost<Seq<char>>,
    ) -> (r: Result<String, GenError>)
        requires
            old(code)@ == base + pre,
        ensures
            generated(r, base, final(code)@, final(self).counter(), gen_slice(pre, v@, start, end, old(self).counter())),
    {
        let slice_len = match checked_difference(end, start) {
            Ok(d) => d,
            Err(e) => return Err(e),
        };
        let t = match self.new_temp() {
            Ok(t) => t,
            Err(e) => return Err(e),
        };
        push_zeroed_array(code, &t, slice_len);
        let args = vec![t.clone(), v, usize_text(start), usize_text(end)];
        assert(texts_model(args@) =~= seq![t@, args@[1]@, crate::chars::nat_text(start as nat), crate::chars::nat_text(end as nat)]);
        push_call(code, "vec_slice", &args);
        assert(code@ =~= base + (pre + zeroed_array(t@, slice_len as nat) + call_line("vec_slice"@, texts_model(args@))));
        Ok(t)
    }

    /// The rest of a matrix block slice once the target's code `pre` is written.
    fn finish_matrix_slice(
        &mut self,
        target: &Expr,
        code: &mut String,
        v: String,
        r_start: usize,
        r_end: usize,
        c_start: usize,
        c_end: usize,
        checker: &TypeChecker,
        Ghost(base): Ghost<Seq<char>>,
        Ghost(pre): Ghost<Seq<char>>,
    ) -> (r: Result<String, GenError>)
        requires
            checker.wf(),
            old(code)@ == base + pre,
        ensures
            generated(
                r,
                base,
                final(code)@,
                final(self).counter(),
                gen_matrix_slice(checker@, target@, pre, v@, r_start, r_end, c_start, c_end, old(self).counter()),
            ),
    {
        let target_ty = match type_of_expr(checker, target) {
            Ok(t) => t,
            Err(e) => return Err(e),
        };
        match target_ty {
            ResolvedType::Matrix { cols: in_cols, .. } => {
                let out_rows = match checked_difference(r_end, r_start) {
                    Ok(d) => d,
                    Err(e) => return Err(e),
                };
                let out_cols = match checked_difference(c_end, c_start) {
                    Ok(d) => d,
                    Err(e) => return Err(e),
                };
                let total = match checked_product(out_rows, out_cols) {
                    Ok(p) => p,
                    Err(e) => return Err(e),
                };
                let t = match self.new_temp() {
                    Ok(t) => t,
                    Err(e) => return Err(e),
                };
                push_zeroed_array(code, &t, total);
                let args = vec![
                    t.clone(),
                    v,
                    usize_text(in_cols),
                    usize_text(r_start),
                    usize_text(r_end),
                    usize_text(c_start),
                    usize_text(c_end),
                ];
                assert(texts_model(args@) =~= seq![
                    t@,
                    args@[1]@,
                    crate::chars::nat_text(in_cols as nat),
                    crate::chars::nat_text(r_start as nat),
                    crate::chars::nat_text(r_end as nat),
                    crate::chars::nat_text(c_start as nat),
                    crate::chars::nat_text(c_end as nat),
                ]);
                push_call(code, "mat_slice", &args);
                assert(code@ =~= base + (pre + zeroed_array(t@, total as nat) + call_line("mat_slice"@, texts_model(args@))));
                Ok(t)
            },
            _ => Err(GenError::ExpectedMatrixForSlice),
        }
    }

    /// The rest of `left |> right` once the left operand's code `pre` is written.
    fn finish_pipe(
        &mut self,
        left: &Expr,
        right: &Expr,
        code: &mut String,
        lv: String,
        checker: &TypeChecker,
        Ghost(base): Ghost<Seq<char>>,
        Ghost(pre): Ghost<Seq<char>>,
    ) -> (r: Result<String, GenError>)
        requires
            checker.wf(),
            old(code)@ == base + pre,
        ensures
            generated(r, base, final(code)@, final(self).counter(), gen_pipe(checker@, left@, right@, pre, lv@, old(self).counter())),
    {
        let left_ty = match type_of_expr(checker, left) {
            Ok(t) => t,
            Err(e) => return Err(e),
        };
        let mut emitted = false;
        match right {
            Expr::Call { callee, args: _ } => {
                if text_is(callee, "relu") {
                    match left_ty {
                        ResolvedType::Vector { len, .. } => {
                            let args = vec![lv.clone(), usize_text(len)];
                            assert(texts_model(args@) =~= seq![lv@, crate::chars::nat_text(len as nat)]);
                            push_call(code, "vec_relu", &args);
                            assert(code@ =~= base + (pre + call_line("vec_relu"@, texts_model(args@))));
                            emitted = true;
                        },
                        _ => {},
                    }
                }
            },
            _ => {},
        }
        if !emitted {
            assert(code@ =~= base + (pre + seq![]));
        }
        Ok(lv)
    }
}

impl CodeGenerator {
    /// Appends the code of `expr` and gives the C expression of its value.
    #[verifier::rlimit(100)]
    fn generate_expr(&mut self, expr: &Expr, code: &mut String, checker: &TypeChecker) -> (r: Result<String, GenError>)
        requires
            checker.wf(),
        ensures
            generated(r, old(code)@, final(code)@, final(self).counter(), gen_expr(checker@, expr@, old(self).counter())),
        decreases expr,
    {
        let ghost m = checker@;
        let ghost start = code@;
        let ghost n0 = self.counter();
        match expr {
            Expr::Number(t) => {
                assert(start + seq![] =~= start);
                Ok(number_to_text(t))
            },
            Expr::Decimal(d) => {
                assert(start + seq![] =~= start);
                Ok(d.clone())
            },
            Expr::Variable(v) => {
                assert(start + seq![] =~= start);
                Ok(v.clone())
            },
            Expr::Vector(elems) => self.generate_vector(elems, code, checker),
            Expr::Matrix(rows) => self.generate_matrix(rows, code, checker),
            Expr::Slice { target, start: s0, end } => {
                let target_var = match self.generate_expr(target, code, checker) {
                    Ok(v) => v,
                    Err(e) => return Err(e),
                };
                let ghost c = code_of(gen_expr(m, target@, n0));
                self.finish_slice(code, target_var, *s0, *end, Ghost(start), Ghost(c))
            },
            Expr::MatrixSlice { target, r_start, r_end, c_start, c_end } => {
                let target_var = match self.generate_expr(target, code, checker) {
                    Ok(v) => v,
                    Err(e) => return Err(e),
                };
                let ghost c = code_of(gen_expr(m, target@, n0));
                self.finish_matrix_slice(target, code, target_var, *r_start, *r_end, *c_start, *c_end, checker, Ghost(start), Ghost(c))
            },
            Expr::Binary { op, left, right } => {
                let left_var = match self.generate_expr(left, code, checker) {
                    Ok(v) => v,
                    Err(e) => return Err(e),
                };
                let ghost c1 = code_of(gen_expr(m, left@, n0));
                if matches!(op, BinaryOp::Pipe) {
                    self.finish_pipe(left, right, code, left_var, checker, Ghost(start), Ghost(c1))
                } else {
                    let ghost n1 = self.counter();
                    let right_var = match self.generate_expr(right, code, checker) {
                        Ok(v) => v,
                        Err(e) => return Err(e),
                    };
                    let ghost c2 = code_of(gen_expr(m, right@, n1));
                    assert(code@ =~= start + (c1 + c2));
                    self.finish_binary(*op, left, right, code, left_var, right_var, checker, Ghost(start), Ghost(c1 + c2))
                }
            },
            Expr::Call { callee, args } => self.generate_call(callee, args, code, checker),
        }
    }

    /// Appends the code of a vector literal and gives its array.
    fn generate_vector(&mut self, elems: &Vec<Expr>, code: &mut String, checker: &TypeChecker) -> (r: Result<String, GenError>)
        requires
            checker.wf(),
        ensures
            generated(
                r,
                old(code)@,
                final(code)@,
                final(self).counter(),
                gen_expr(checker@, SpecExpr::Vector(exprs_model(elems@)), old(self).counter()),
            ),
        decreases elems,
    {
        let ghost m = checker@;
        let ghost start = code@;
        let t = match self.new_temp() {
            Ok(t) => t,
            Err(e) => return Err(e),
        };
        proof {
            lemma_exprs_model_index(elems@);
        }
        code.append("    double ");
        code.append(t.as_str());
        code.append("[");
        code.append(usize_text(elems.len()).as_str());
        code.append("] = {");
        let ghost k = self.counter();
        match self.generate_vector_elements(elems, code, checker) {
            Ok(()) => {},
            Err(e) => return Err(e),
        }
        let ghost c = list_code(gen_vector_elements(m, exprs_model(elems@), k));
        code.append("};\n");
        assert(code@ =~= start + ("    double "@ + t@ + "["@ + crate::chars::nat_text(elems@.len()) + "] = {"@ + c + "};\n"@));
        Ok(t)
    }

    /// Appends the code of a matrix literal and gives its array.
    fn generate_matrix(&mut self, rows: &Vec<Vec<Expr>>, code: &mut String, checker: &TypeChecker) -> (r: Result<String, GenError>)
        requires
            checker.wf(),
        ensures
            generated(
                r,
                old(code)@,
                final(code)@,
                final(self).counter(),
                gen_expr(checker@, SpecExpr::Matrix(rows_model(rows@)), old(self).counter()),
            ),
        decreases rows,
    {
        let ghost m = checker@;
        let ghost start = code@;
        let t = match self.new_temp() {
            Ok(t) => t,
            Err(e) => return Err(e),
        };
        proof {
            lemma_rows_model_index(rows@);
        }
        let r_cnt = rows.len();
        let c_cnt = if r_cnt > 0 {
            rows[0].len()
        } else {
            0
        };
        proof {
            if r_cnt > 0 {
                lemma_exprs_model_index(rows@[0]@);
            }
        }
        let total = match checked_product(r_cnt, c_cnt) {
            Ok(p) => p,
            Err(e) => return Err(e),
        };
        code.append("    double ");
        code.append(t.as_str());
        code.append("[");
        code.append(usize_text(total).as_str());
        code.append("] = {");
        let ghost k = self.counter();
        match self.generate_matrix_rows(rows, code, checker) {
            Ok(()) => {},
            Err(e) => return Err(e),
        }
        let ghost c = row_code(gen_matrix_rows(m, rows_model(rows@), true, k));
        code.append("};\n");
        assert(code@ =~= start + ("    double "@ + t@ + "["@ + crate::chars::nat_text(total as nat) + "] = {"@ + c + "};\n"@));
        Ok(t)
    }
}

impl CodeGenerator {
    /// The rest of `print(arg)` once the argument's code `pre` is written.
    fn finish_print(
        &mut self,
        arg: &Expr,
        code: &mut String,
        av: String,
        checker: &TypeChecker,
        Ghost(base): Ghost<Seq<char>>,
        Ghost(pre): Ghost<Seq<char>>,
    ) -> (r: Result<String, GenError>)
        requires
            checker.wf(),
            old(code)@ == base + pre,
        ensures
            generated(r, base, final(code)@, final(self).counter(), gen_print(checker@, arg@, pre, av@, old(self).counter())),
    {
        let at = match type_of_expr(checker, arg) {
            Ok(t) => t,
            Err(e) => return Err(e),
        };
        match at {
            ResolvedType::Vector { len, .. } => {
                let a = vec![av, usize_text(len)];
                assert(texts_model(a@) =~= seq![a@[0]@, crate::chars::nat_text(len as nat)]);
                push_call(code, "print_vector", &a);
                assert(code@ =~= base + (pre + call_line("print_vector"@, texts_model(a@))));
            },
            ResolvedType::Matrix { rows, cols, .. } => {
                let a = vec![av, usize_text(rows), usize_text(cols)];
                assert(texts_model(a@) =~= seq![a@[0]@, crate::chars::nat_text(rows as nat), crate::chars::nat_text(cols as nat)]);
                push_call(code, "print_matrix", &a);
                assert(code@ =~= base + (pre + call_line("print_matrix"@, texts_model(a@))));
            },
            ResolvedType::F64 | ResolvedType::Dec => {
                let a = vec![String::from_str("\"%.4f\\n\""), av];
                assert(texts_model(a@) =~= seq!["\"%.4f\\n\""@, a@[1]@]);
                push_call(code, "printf", &a);
                assert(code@ =~= base + (pre + call_line("printf"@, texts_model(a@))));
            },
            ResolvedType::Void => {},
        }
        Ok(String::new())
    }

    /// `read_csv(rows, cols)`: a matrix loaded from `data.csv`.
    fn generate_read_csv(&mut self, args: &Vec<Expr>, code: &mut String) -> (r: Result<String, GenError>)
        requires
            args@.len() == 2,
        ensures
            generated(r, old(code)@, final(code)@, final(self).counter(), gen_read_csv(exprs_model(args@), old(self).counter())),
    {
        let ghost start = code@;
        proof {
            lemma_exprs_model_index(args@);
        }
        match &args[0] {
            Expr::Number(r) => match &args[1] {
                Expr::Number(cl) => {
                    let rows = literal_to_usize(r);
                    let cols = literal_to_usize(cl);
                    let total = match checked_product(rows, cols) {
                        Ok(p) => p,
                        Err(e) => return Err(e),
                    };
                    let t = match self.new_temp() {
                        Ok(t) => t,
                        Err(e) => return Err(e),
                    };
                    push_zeroed_array(code, &t, total);
                    let a = vec![t.clone(), usize_text(rows), usize_text(cols), String::from_str("\"data.csv\"")];
                    assert(texts_model(a@) =~= seq![t@, crate::chars::nat_text(rows as nat), crate::chars::nat_text(cols as nat), "\"data.csv\""@]);
                    push_call(code, "read_csv_file", &a);
                    assert(code@ =~= start + (zeroed_array(t@, total as nat) + call_line("read_csv_file"@, texts_model(a@))));
                    return Ok(t);
                },
                _ => {},
            },
            _ => {},
        }
        assert(code@ =~= start + seq![]);
        Ok(String::new())
    }

    /// The rest of `mse_loss(pred, target)` once both arguments' code `pre` is written.
    fn finish_mse(
        &mut self,
        pred: &Expr,
        code: &mut String,
        pv: String,
        tv: String,
        checker: &TypeChecker,
        Ghost(base): Ghost<Seq<char>>,
        Ghost(pre): Ghost<Seq<char>>,
    ) -> (r: Result<String, GenError>)
        requires
            checker.wf(),
            old(code)@ == base + pre,
        ensures
            generated(r, base, final(code)@, final(self).counter(), gen_mse(checker@, pred@, pre, pv@, tv@, old(self).counter())),
    {
        let pt = match type_of_expr(checker, pred) {
            Ok(t) => t,
            Err(e) => return Err(e),
        };
        match pt {
            ResolvedType::Matrix { rows, cols, .. } => {
                let total = match checked_product(rows, cols) {
                    Ok(p) => p,
                    Err(e) => return Err(e),
                };
                let t = match self.new_temp() {
                    Ok(t) => t,
                    Err(e) => return Err(e),
                };
                code.append("    double ");
                code.append(t.as_str());
                code.append(" = mat_mse_loss(");
                let a = vec![pv, tv, usize_text(total)];
                assert(texts_model(a@) =~= seq![a@[0]@, a@[1]@, crate::chars::nat_text(total as nat)]);
                push_args(code, &a);
                code.append(");\n");
                assert(code@ =~= base + (pre + "    double "@ + t@ + " = mat_mse_loss("@ + comma_list(texts_model(a@)) + ");\n"@));
                Ok(t)
            },
            _ => {
                assert(code@ =~= base + pre);
                Ok(String::new())
            },
        }
    }

    /// The rest of `relu`, `sigmoid` or `transpose` of `arg` once its code `pre` is written.
    fn finish_matrix_fn(
        &mut self,
        callee: &String,
        arg: &Expr,
        code: &mut String,
        av: String,
        checker: &TypeChecker,
        Ghost(base): Ghost<Seq<char>>,
        Ghost(pre): Ghost<Seq<char>>,
    ) -> (r: Result<String, GenError>)
        requires
            checker.wf(),
            old(code)@ == base + pre,
        ensures
            generated(r, base, final(code)@, final(self).counter(), gen_matrix_fn(checker@, callee@, arg@, pre, av@, old(self).counter())),
    {
        let at = match type_of_expr(checker, arg) {
            Ok(t) => t,
            Err(e) => return Err(e),
        };
        match at {
            ResolvedType::Matrix { rows, cols, .. } => {
                let total = match checked_product(rows, cols) {
                    Ok(p) => p,
                    Err(e) => return Err(e),
                };
                let t = match self.new_temp() {
                    Ok(t) => t,
                    Err(e) => return Err(e),
                };
                push_zeroed_array(code, &t, total);
                if text_is(callee, "transpose") {
                    let a = vec![t.clone(), av, usize_text(rows), usize_text(cols)];
                    assert(texts_model(a@) =~= seq![t@, a@[1]@, crate::chars::nat_text(rows as nat), crate::chars::nat_text(cols as nat)]);
                    push_call(code, "mat_transpose", &a);
                    assert(code@ =~= base + (pre + zeroed_array(t@, total as nat) + call_line("mat_transpose"@, texts_model(a@))));
                } else {
                    let a = vec![t.clone(), av, usize_text(total)];
                    assert(texts_model(a@) =~= seq![t@, a@[1]@, crate::chars::nat_text(total as nat)]);
                    if text_is(callee, "relu") {
                        push_call(code, "mat_relu", &a);
                        assert(code@ =~= base + (pre + zeroed_array(t@, total as nat) + call_line("mat_relu"@, texts_model(a@))));
                    } else {
                        push_call(code, "mat_sigmoid", &a);
                        assert(code@ =~= base + (pre + zeroed_array(t@, total as nat) + call_line("mat_sigmoid"@, texts_model(a@))));
                    }
                }
                Ok(t)
            },
            _ => Ok(String::new()),
        }
    }

    /// `zeros(rows, cols)` or `random(rows, cols)`: a generated matrix.
    fn generate_generator_call(&mut self, callee: &String, args: &Vec<Expr>, code: &mut String) -> (r: Result<String, GenError>)
        requires
            args@.len() == 2,
        ensures
            generated(r, old(code)@, final(code)@, final(self).counter(), gen_generator_call(callee@, exprs_model(args@), old(self).counter())),
    {
        let ghost start = code@;
        proof {
            lemma_exprs_model_index(args@);
        }
        match &args[0] {
            Expr::Number(r) => match &args[1] {
                Expr::Number(cl) => {
                    let rows = literal_to_usize(r);
                    let cols = literal_to_usize(cl);
                    let total = match checked_product(rows, cols) {
                        Ok(p) => p,
                        Err(e) => return Err(e),
                    };
                    let t = match self.new_temp() {
                        Ok(t) => t,
                        Err(e) => return Err(e),
                    };
                    push_zeroed_array(code, &t, total);
                    let a = vec![t.clone(), usize_text(total)];
                    assert(texts_model(a@) =~= seq![t@, crate::chars::nat_text(total as nat)]);
                    if text_is(callee, "zeros") {
                        push_call(code, "mat_zeros", &a);
                        assert(code@ =~= start + (zeroed_array(t@, total as nat) + call_line("mat_zeros"@, texts_model(a@))));
                    } else {
                        push_call(code, "mat_random", &a);
                        assert(code@ =~= start + (zeroed_array(t@, total as nat) + call_line("mat_random"@, texts_model(a@))));
                    }
                    return Ok(t);
                },
                _ => {},
            },
            _ => {},
        }
        assert(code@ =~= start + seq![]);
        Ok(String::new())
    }

    /// Appends the code of a call of a built-in function and gives the C
    /// expression of its value (empty where the call gives none).
    fn generate_call(&mut self, callee: &String, args: &Vec<Expr>, code: &mut String, checker: &TypeChecker) -> (r: Result<String, GenError>)
        requires
            checker.wf(),
        ensures
            generated(r, old(code)@, final(code)@, final(self).counter(), gen_call(checker@, callee@, exprs_model(args@), old(self).counter())),
        decreases args,
    {
        let ghost m = checker@;
        let ghost start = code@;
        let ghost n0 = self.counter();
        proof {
            lemma_exprs_model_index(args@);
        }
        if text_is(callee, "print") && args.len() > 0 {
            let av = match self.generate_expr(&args[0], code, checker) {
                Ok(v) => v,
                Err(e) => return Err(e),
            };
            let ghost c = code_of(gen_expr(m, args@[0]@, n0));
            self.finish_print(&args[0], code, av, checker, Ghost(start), Ghost(c))
        } else if text_is(callee, "read_csv") && args.len() == 2 {
            self.generate_read_csv(args, code)
        } else if text_is(callee, "mse_loss") && args.len() == 2 {
            let pv = match self.generate_expr(&args[0], code, checker) {
                Ok(v) => v,
                Err(e) => return Err(e),
            };
            let ghost n1 = self.counter();
            let tv = match self.generate_expr(&args[1], code, checker) {
                Ok(v) => v,
                Err(e) => return Err(e),
            };
            let ghost c1 = code_of(gen_expr(m, args@[0]@, n0));
            let ghost c2 = code_of(gen_expr(m, args@[1]@, n1));
            assert(code@ =~= start + (c1 + c2));
            self.finish_mse(&args[0], code, pv, tv, checker, Ghost(start), Ghost(c1 + c2))
        } else if (text_is(callee, "relu") || text_is(callee, "sigmoid") || text_is(callee, "transpose")) && args.len() > 0 {
            let av = match self.generate_expr(&args[0], code, checker) {
                Ok(v) => v,
                Err(e) => return Err(e),
            };
            let ghost c = code_of(gen_expr(m, args@[0]@, n0));
            self.finish_matrix_fn(callee, &args[0], code, av, checker, Ghost(start), Ghost(c))
        } else if (text_is(callee, "zeros") || text_is(callee, "random")) && args.len() == 2 {
            self.generate_generator_call(callee, args, code)
        } else {
            assert(code@ =~= start + seq![]);
            Ok(String::new())
        }
    }
}


impl CodeGenerator {
    /// The rest of `let name = value` once the value's code `pre` is written.
    fn finish_let(
        &mut self,
        name: &String,
        value: &Expr,
        code: &mut String,
        v: String,
        checker: &TypeChecker,
        Ghost(base): Ghost<Seq<char>>,
        Ghost(pre): Ghost<Seq<char>>,
    ) -> (r: Result<(), GenError>)
        requires
            checker.wf(),
            old(code)@ == base + pre,
        ensures
            final(self).counter() == old(self).counter(),
            match gen_let(checker@, name@, value@, pre, v@, old(self).counter()) {
                Ok((c, k)) => r is Ok && final(code)@ == base + c && final(self).counter() == k,
                Err(e) => r matches Err(x) && x@ == e,
            },
    {
        let vt = match type_of_expr(checker, value) {
            Ok(t) => t,
            Err(e) => return Err(e),
        };
        let size = match vt {
            ResolvedType::Vector { len, .. } => len,
            ResolvedType::Matrix { rows, cols, .. } => match checked_product(rows, cols) {
                Ok(p) => p,
                Err(e) => return Err(e),
            },
            ResolvedType::F64 | ResolvedType::Dec => {
                code.append("    double ");
                code.append(name.as_str());
                code.append(" = ");
                code.append(v.as_str());
                code.append(";\n");
                assert(code@ =~= base + (pre + "    double "@ + name@ + " = "@ + v@ + ";\n"@));
                return Ok(());
            },
            ResolvedType::Void => {
                return Ok(());
            },
        };
        push_zeroed_array(code, name, size);
        code.append("    for(int i=0; i<");
        code.append(usize_text(size).as_str());
        code.append("; i++) ");
        code.append(name.as_str());
        code.append("[i] = ");
        code.append(v.as_str());
        code.append("[i];\n");
        assert(code@ =~= base + (pre + zeroed_array(name@, size as nat) + "    for(int i=0; i<"@
            + crate::chars::nat_text(size as nat) + "; i++) "@ + name@ + "[i] = "@ + v@ + "[i];\n"@));
        Ok(())
    }

    /// Appends the code of one statement: a `let` copies the value into a
    /// C variable of its name; an expression is evaluated for its effect.
    fn generate_statement(&mut self, stmt: &Statement, code: &mut String, checker: &TypeChecker) -> (r: Result<(), GenError>)
        requires
            checker.wf(),
        ensures
            match gen_statement(checker@, stmt@, old(self).counter()) {
                Ok((c, k)) => r is Ok && final(code)@ == old(code)@ + c && final(self).counter() == k,
                Err(e) => r matches Err(x) && x@ == e,
            },
    {
        let ghost m = checker@;
        let ghost start = code@;
        let ghost n0 = self.counter();
        match stmt {
            Statement::Let { name, ty: _, value } => {
                let v = match self.generate_expr(value, code, checker) {
                    Ok(v) => v,
                    Err(e) => return Err(e),
                };
                let ghost c = code_of(gen_expr(m, value@, n0));
                self.finish_let(name, value, code, v, checker, Ghost(start), Ghost(c))
            },
            Statement::Expression(e) => {
                match self.generate_expr(e, code, checker) {
                    Ok(_) => Ok(()),
                    Err(err) => Err(err),
                }
            },
        }
    }

    /// The C program for `program`, or the error that generation stops at:
    /// the runtime helpers, then `main` with the code of each statement in
    /// order, the named values typed by `checker`.
    pub fn try_generate(&mut self, program: &Program, checker: &TypeChecker) -> (r: Result<String, GenError>)
        requires
            checker.wf(),
        ensures
            match spec_generate(checker@, program@, old(self).counter()) {
                Ok((c, k)) => r matches Ok(s) && s@ == c && final(self).counter() == k,
                Err(e) => r matches Err(x) && x@ == e,
            },
    {
        let ghost m = checker@;
        let ghost stmts = program@;
        let ghost n0 = self.counter();
        let mut code = String::from_str(PRELUDE);
        let ghost mut done: Seq<char> = seq![];
        let n = program.statements.len();
        let mut i: usize = 0;
        assert(stmts.subrange(0, n as int) =~= stmts);
        assert(PRELUDE@ + done =~= PRELUDE@);
        while i < n
            invariant
                checker.wf(),
                m == checker@,
                n == program.statements@.len(),
                stmts == program@,
                stmts.len() == n,
                i <= n,
                n0 == old(self).counter(),
                code@ == PRELUDE@ + done,
                prefix_code(done, gen_statements(m, stmts.subrange(i as int, n as int), self.counter()))
                    == gen_statements(m, stmts, n0),
            decreases n - i,
        {
            let ghost k = self.counter();
            let ghost rest = stmts.subrange(i as int, n as int);
            assert(rest[0] == program.statements@[i as int]@);
            assert(rest.subrange(1, rest.len() as int) =~= stmts.subrange(i + 1, n as int));
            match self.generate_statement(&program.statements[i], &mut code, checker) {
                Ok(()) => {},
                Err(e) => return Err(e),
            }
            proof {
                let c = list_code(gen_statement(m, rest[0], k));
                let old_done = done;
                done = done + c;
                assert(code@ =~= PRELUDE@ + done);
                match gen_statements(m, stmts.subrange(i + 1, n as int), self.counter()) {
                    Ok((more, k2)) => {
                        assert(old_done + (c + more) =~= done + more);
                    },
                    Err(_) => {},
                }
            }
            i = i + 1;
        }
        assert(stmts.subrange(n as int, n as int) =~= seq![]);
        assert(done + seq![] =~= done);
        code.append(EPILOGUE);
        Ok(code)
    }

    /// The C program for `program`, on a program whose generation succeeds.
    pub fn generate(&mut self, program: &Program, checker: &TypeChecker) -> (code: String)
        requires
            checker.wf(),
            spec_generate(checker@, program@, old(self).counter()) is Ok,
        ensures
            spec_generate(checker@, program@, old(self).counter()) == Ok::<(Seq<char>, nat), SpecGenError>(
                (code@, final(self).counter()),
            ),
    {
        match self.try_generate(program, checker) {
            Ok(code) => code,
            Err(_) => {
                proof {
                    assert(false);
                }
                String::new()
            },
        }
    }
}

} // verus!
