use qlang::ast::{Expr, Program};
use qlang::checker::{CheckError, ResolvedType, TypeChecker};
use qlang::lexer::Lexer;
use qlang::parser::Parser;

fn program(src: &str) -> Program {
    let mut lexer = Lexer::new(src);
    let tokens = lexer.try_tokenize().expect("source should lex");
    let mut parser = Parser::new(tokens);
    parser.try_parse_program().expect("source should parse")
}

/// Checks every statement but the last, then gives the type of the last
/// statement's expression (or value).
fn type_of_last(src: &str) -> Result<ResolvedType, CheckError> {
    let mut prog = program(src);
    let last = prog.statements.pop().expect("a statement");
    let mut checker = TypeChecker::new();
    checker.try_check_program(&prog)?;
    let expr: Expr = match last {
        qlang::ast::Statement::Let { value, .. } => value,
        qlang::ast::Statement::Expression(e) => e,
    };
    checker.try_infer_expression_type(&expr)
}

fn debug_type(src: &str) -> String {
    format!("{:?}", type_of_last(src))
}

#[test]
fn matrix_product_shape() {
    assert_eq!(
        debug_type("let A = zeros(2, 3); let B = zeros(3, 2); A * B;"),
        "Ok(Matrix { elem: F64, rows: 2, cols: 2 })"
    );
}

#[test]
fn at_is_matrix_product_too() {
    assert_eq!(
        debug_type("let A = zeros(2, 3); let B = zeros(3, 4); A @ B;"),
        "Ok(Matrix { elem: F64, rows: 2, cols: 4 })"
    );
}

#[test]
fn matrix_product_mismatch_is_rejected() {
    assert_eq!(
        debug_type("let A = zeros(2, 3); let B = zeros(2, 3); A * B;"),
        "Err(MatMulMismatch { r1: 2, c1: 3, r2: 2, c2: 3 })"
    );
}

#[test]
fn vector_times_matrix() {
    assert_eq!(
        debug_type("let v = [1, 2]; let M = zeros(2, 5); v @ M;"),
        "Ok(Vector { elem: F64, len: 5 })"
    );
    assert_eq!(
        debug_type("let v = [1, 2, 3]; let M = zeros(2, 5); v @ M;"),
        "Err(VectorMatrixMismatch { len: 3, rows: 2, cols: 5 })"
    );
}

#[test]
fn matmul_needs_arrays() {
    assert_eq!(debug_type("1 @ 2;"), "Err(InvalidMatMulOperands)");
}

#[test]
fn matrix_sum_shape() {
    assert_eq!(
        debug_type("let A = zeros(2, 2); let B = random(2, 2); A + B;"),
        "Ok(Matrix { elem: F64, rows: 2, cols: 2 })"
    );
    assert_eq!(
        debug_type("let A = zeros(2, 2); let B = random(2, 3); A - B;"),
        "Err(ElementwiseMatrixMismatch { r1: 2, c1: 2, r2: 2, c2: 3 })"
    );
}

#[test]
fn matrix_division_is_unsupported() {
    assert_eq!(
        debug_type("let A = zeros(2, 2); A / A;"),
        "Err(UnsupportedOperands)"
    );
}

#[test]
fn scalar_broadcasts_over_arrays() {
    assert_eq!(
        debug_type("let v = [1, 2, 3]; v * 2;"),
        "Ok(Vector { elem: F64, len: 3 })"
    );
    assert_eq!(
        debug_type("let M = zeros(2, 4); 2 - M;"),
        "Ok(Matrix { elem: F64, rows: 2, cols: 4 })"
    );
    assert_eq!(debug_type("1 + 2;"), "Ok(F64)");
}

#[test]
fn vectors_do_not_combine_with_plus() {
    assert_eq!(debug_type("let v = [1]; v + [2];"), "Err(UnsupportedOperands)");
}

#[test]
fn element_wise_shapes() {
    assert_eq!(
        debug_type("let a = [1, 2]; let b = [3, 4]; a .* b;"),
        "Ok(Vector { elem: F64, len: 2 })"
    );
    assert_eq!(
        debug_type("let a = [1, 2]; let b = [3]; a .+ b;"),
        "Err(VectorLengthMismatch { l1: 2, l2: 1 })"
    );
    assert_eq!(
        debug_type("let A = zeros(2, 2); let B = zeros(1, 2); A ./ B;"),
        "Err(MatrixDimensionsMismatch { r1: 2, c1: 2, r2: 1, c2: 2 })"
    );
    assert_eq!(debug_type("1 .- 2;"), "Err(InvalidElementwiseOperands)");
}

#[test]
fn generators_make_matrices() {
    assert_eq!(
        debug_type("zeros(3, 3);"),
        "Ok(Matrix { elem: F64, rows: 3, cols: 3 })"
    );
    assert_eq!(
        debug_type("random(2, 4);"),
        "Ok(Matrix { elem: F64, rows: 2, cols: 4 })"
    );
    assert_eq!(
        debug_type("read_csv(10, 5);"),
        "Ok(Matrix { elem: F64, rows: 10, cols: 5 })"
    );
}

#[test]
fn generator_arguments_must_be_literals() {
    match type_of_last("let n = 2; zeros(n, 2);") {
        Err(CheckError::GeneratorArguments(name)) => assert_eq!(name, "zeros"),
        other => panic!("unexpected result {:?}", other),
    }
}

#[test]
fn generator_size_from_fraction_and_negative_literals() {
    assert_eq!(
        debug_type("zeros(2.9, -3);"),
        "Ok(Matrix { elem: F64, rows: 2, cols: 0 })"
    );
}

#[test]
fn activations_keep_shape() {
    assert_eq!(
        debug_type("let M = random(3, 2); sigmoid(M);"),
        "Ok(Matrix { elem: F64, rows: 3, cols: 2 })"
    );
    assert_eq!(
        debug_type("let M = random(3, 2); relu(M);"),
        "Ok(Matrix { elem: F64, rows: 3, cols: 2 })"
    );
    assert_eq!(debug_type("relu(1);"), "Ok(Void)");
}

#[test]
fn loss_of_equal_shapes_is_scalar() {
    assert_eq!(
        debug_type("let P = zeros(2, 2); let T = zeros(2, 2); mse_loss(P, T);"),
        "Ok(F64)"
    );
    assert_eq!(
        debug_type("let P = zeros(2, 2); let T = zeros(3, 2); mse_loss(P, T);"),
        "Err(LossShapeMismatch { r1: 2, c1: 2, r2: 3, c2: 2 })"
    );
}

#[test]
fn transpose_swaps_dimensions() {
    assert_eq!(
        debug_type("let M = zeros(2, 5); transpose(M);"),
        "Ok(Matrix { elem: F64, rows: 5, cols: 2 })"
    );
    assert_eq!(
        debug_type("let M = zeros(2, 5); transpose(transpose(M));"),
        "Ok(Matrix { elem: F64, rows: 2, cols: 5 })"
    );
    assert_eq!(debug_type("transpose(1);"), "Err(TransposeOfNonMatrix)");
}

#[test]
fn matrix_slice_shapes() {
    assert_eq!(
        debug_type("let M = zeros(4, 4); M[0..2, 1..3];"),
        "Ok(Matrix { elem: F64, rows: 2, cols: 2 })"
    );
    assert_eq!(
        debug_type("let M = zeros(4, 4); M[2..2, 1..3];"),
        "Err(InvalidMatrixSliceRange)"
    );
    assert_eq!(
        debug_type("let M = zeros(4, 4); M[0..5, 1..3];"),
        "Err(MatrixSliceOutOfBounds)"
    );
    assert_eq!(
        debug_type("let v = [1, 2]; v[0..1, 0..1];"),
        "Err(MatrixSliceOfNonMatrix)"
    );
}

#[test]
fn vector_slice_shapes() {
    assert_eq!(
        debug_type("let v = [1, 2, 3, 4]; v[1..3];"),
        "Ok(Vector { elem: F64, len: 2 })"
    );
    assert_eq!(
        debug_type("let v = [1, 2, 3, 4]; v[3..1];"),
        "Err(InvalidSliceRange { start: 3, end: 1 })"
    );
    assert_eq!(
        debug_type("let v = [1, 2]; v[0..3];"),
        "Err(SliceOutOfBounds { end: 3, len: 2 })"
    );
    assert_eq!(
        debug_type("let M = zeros(2, 2); M[0..1];"),
        "Err(SliceOfNonVector)"
    );
}

#[test]
fn literals_have_shapes() {
    assert_eq!(
        debug_type("[[1, 2, 3], [4, 5, 6]];"),
        "Ok(Matrix { elem: F64, rows: 2, cols: 3 })"
    );
    assert_eq!(debug_type("[];"), "Ok(Vector { elem: F64, len: 0 })");
}

#[test]
fn pipe_keeps_left_type() {
    assert_eq!(
        debug_type("let v = [1, 2]; v |> relu();"),
        "Ok(Vector { elem: F64, len: 2 })"
    );
}

#[test]
fn undefined_variable_is_rejected() {
    match type_of_last("x;") {
        Err(CheckError::UndefinedVariable(name)) => assert_eq!(name, "x"),
        other => panic!("unexpected result {:?}", other),
    }
}

#[test]
fn undefined_function_is_rejected() {
    match type_of_last("softmax(1);") {
        Err(CheckError::UndefinedFunction(name)) => assert_eq!(name, "softmax"),
        other => panic!("unexpected result {:?}", other),
    }
}

#[test]
fn check_program_binds_let_names() {
    let prog = program("let M = zeros(2, 3); let T = transpose(M);");
    let mut checker = TypeChecker::new();
    checker.check_program(&prog);
    let t = checker.infer_expression_type(&Expr::Variable("T".to_string()));
    assert_eq!(format!("{:?}", t), "Matrix { elem: F64, rows: 3, cols: 2 }");
}

#[test]
fn check_program_stops_at_first_error() {
    let prog = program("let a = [1, 2]; let b = [1]; let c = a .+ b; let d = q;");
    let mut checker = TypeChecker::new();
    match checker.try_check_program(&prog) {
        Err(CheckError::VectorLengthMismatch { l1, l2 }) => {
            assert_eq!(l1, 2);
            assert_eq!(l2, 1);
        }
        other => panic!("unexpected result {:?}", other),
    }
}

#[test]
fn duplicate_copies_a_type() {
    let t = ResolvedType::Matrix { elem: Box::new(ResolvedType::Dec), rows: 2, cols: 3 };
    assert_eq!(format!("{:?}", t.duplicate()), format!("{:?}", t));
}

#[test]
fn activation_argument_must_check() {
    match type_of_last("let v = [1, 2]; v |> relu(u);") {
        Err(CheckError::UndefinedVariable(name)) => assert_eq!(name, "u"),
        other => panic!("unexpected result {:?}", other),
    }
    match type_of_last("sigmoid(u);") {
        Err(CheckError::UndefinedVariable(name)) => assert_eq!(name, "u"),
        other => panic!("unexpected result {:?}", other),
    }
}

#[test]
fn every_literal_element_is_checked() {
    assert_eq!(
        debug_type("let v = [1, zeros(2, 3) * zeros(2, 3)];"),
        "Err(MatMulMismatch { r1: 2, c1: 3, r2: 2, c2: 3 })"
    );
    match type_of_last("[[1, 2], [3, q]];") {
        Err(CheckError::UndefinedVariable(name)) => assert_eq!(name, "q"),
        other => panic!("unexpected result {:?}", other),
    }
    assert_eq!(
        debug_type("[[1, 2], [3, 4 + 5]];"),
        "Ok(Matrix { elem: F64, rows: 2, cols: 2 })"
    );
}

#[test]
fn new_checker_knows_the_builtins() {
    let checker = TypeChecker::new();
    for name in ["relu", "print", "transpose", "zeros", "random", "sigmoid", "mse_loss", "read_csv"] {
        let t = checker.infer_expression_type(&Expr::Variable(name.to_string()));
        assert_eq!(format!("{:?}", t), "Void");
    }
}
