use qlang::ast::Program;
use qlang::checker::TypeChecker;
use qlang::codegen::{CodeGenerator, GenError};
use qlang::codegen_spec::{EPILOGUE, PRELUDE};
use qlang::lexer::Lexer;
use qlang::parser::Parser;

fn checked(src: &str) -> (Program, TypeChecker) {
    let mut lexer = Lexer::new(src);
    let tokens = lexer.try_tokenize().expect("source should lex");
    let mut parser = Parser::new(tokens);
    let prog = parser.try_parse_program().expect("source should parse");
    let mut checker = TypeChecker::new();
    checker.try_check_program(&prog).expect("source should check");
    (prog, checker)
}

/// The code generated for the statements of `src`, without the frame.
fn body(src: &str) -> String {
    let (prog, checker) = checked(src);
    let mut generator = CodeGenerator::new();
    let code = generator.try_generate(&prog, &checker).expect("code should be generated");
    assert!(code.starts_with(PRELUDE));
    assert!(code.ends_with(EPILOGUE));
    code[PRELUDE.len()..code.len() - EPILOGUE.len()].to_string()
}

#[test]
fn empty_program_is_the_frame() {
    let (prog, checker) = checked("");
    let mut generator = CodeGenerator::new();
    let code = generator.generate(&prog, &checker);
    assert_eq!(code, format!("{}{}", PRELUDE, EPILOGUE));
}

#[test]
fn prelude_holds_the_runtime_helpers() {
    for helper in [
        "void print_vector(",
        "void print_matrix(",
        "void read_csv_file(",
        "void mat_zeros(",
        "void mat_random(",
        "void mat_relu(",
        "void mat_sigmoid(",
        "double mat_mse_loss(",
        "void vec_mat_mul(",
        "void mat_mat_mul(",
        "void vec_relu(",
        "void vec_elem_op(",
        "void vec_slice(",
        "void mat_slice(",
        "void mat_transpose(",
        "void vec_broadcast_op(",
    ] {
        assert!(PRELUDE.contains(helper), "missing {}", helper);
    }
    assert!(PRELUDE.starts_with("#include <stdio.h>\n"));
    assert!(PRELUDE.ends_with("int main() {\n    srand(12345);\n"));
    assert_eq!(EPILOGUE, "    return 0;\n}\n");
}

#[test]
fn scalar_let() {
    assert_eq!(body("let x = 5;"), "    double x = 5;\n");
    assert_eq!(body("let y = 2.50;"), "    double y = 2.5;\n");
}

#[test]
fn vector_let_copies_a_temporary() {
    assert_eq!(
        body("let v = [1, 2.5, -3];"),
        "    double t1[3] = {1, 2.5, -3};\n    double v[3] = {0};\n    for(int i=0; i<3; i++) v[i] = t1[i];\n"
    );
}

#[test]
fn matrix_let_flattens_rows() {
    assert_eq!(
        body("let M = [[1, 2], [3, 4]];"),
        "    double t1[4] = {1, 2, 3, 4};\n    double M[4] = {0};\n    for(int i=0; i<4; i++) M[i] = t1[i];\n"
    );
}

#[test]
fn generators_fill_arrays() {
    assert_eq!(
        body("let Z = zeros(2, 3);"),
        "    double t1[6] = {0};\n    mat_zeros(t1, 6);\n    double Z[6] = {0};\n    for(int i=0; i<6; i++) Z[i] = t1[i];\n"
    );
    assert_eq!(
        body("random(1, 2);"),
        "    double t1[2] = {0};\n    mat_random(t1, 2);\n"
    );
    assert_eq!(
        body("read_csv(2, 2);"),
        "    double t1[4] = {0};\n    read_csv_file(t1, 2, 2, \"data.csv\");\n"
    );
}

#[test]
fn star_and_at_generate_the_same_product() {
    let star = body("let A = zeros(2, 3); let B = zeros(3, 2); A * B;");
    let at = body("let A = zeros(2, 3); let B = zeros(3, 2); A @ B;");
    assert_eq!(star, at);
    assert!(star.ends_with("    double t3[4] = {0};\n    mat_mat_mul(t3, A, B, 2, 3, 2);\n"));
}

#[test]
fn vector_matrix_product() {
    assert_eq!(
        body("let v = [1, 2]; let M = zeros(2, 3); v @ M;"),
        "    double t1[2] = {1, 2};\n    double v[2] = {0};\n    for(int i=0; i<2; i++) v[i] = t1[i];\n\
         \x20   double t2[6] = {0};\n    mat_zeros(t2, 6);\n    double M[6] = {0};\n    for(int i=0; i<6; i++) M[i] = t2[i];\n\
         \x20   double t3[3] = {0};\n    vec_mat_mul(t3, v, M, 2, 3);\n"
    );
}

#[test]
fn matrix_sum_is_element_wise() {
    let code = body("let A = zeros(2, 2); let B = zeros(2, 2); A - B;");
    assert!(code.ends_with("    double t3[4] = {0};\n    vec_elem_op(t3, A, B, 4, '-');\n"));
}

#[test]
fn scalar_arithmetic_is_inline() {
    assert_eq!(body("let x = 1 + 2 * 3;"), "    double x = (1 + (2 * 3));\n");
}

#[test]
fn broadcast_keeps_scalar_side() {
    let code = body("let v = [1, 2]; v * 3; 4 / v;");
    assert!(code.contains("    double t2[2] = {0};\n    vec_broadcast_op(t2, v, 3, 2, '*', 0);\n"));
    assert!(code.ends_with("    double t3[2] = {0};\n    vec_broadcast_op(t3, v, 4, 2, '/', 1);\n"));
}

#[test]
fn element_wise_on_vectors() {
    let code = body("let a = [1, 2]; let b = [3, 4]; a .* b;");
    assert!(code.ends_with("    double t3[2] = {0};\n    vec_elem_op(t3, a, b, 2, '*');\n"));
}

#[test]
fn slices_copy_ranges() {
    let code = body("let v = [1, 2, 3]; v[1..3];");
    assert!(code.ends_with("    double t2[2] = {0};\n    vec_slice(t2, v, 1, 3);\n"));
    let code = body("let M = zeros(3, 4); M[0..2, 1..3];");
    assert!(code.ends_with("    double t2[4] = {0};\n    mat_slice(t2, M, 4, 0, 2, 1, 3);\n"));
}

#[test]
fn activations_and_transpose() {
    let code = body("let M = zeros(2, 3); relu(M); sigmoid(M); transpose(M);");
    assert!(code.ends_with(
        "    double t2[6] = {0};\n    mat_relu(t2, M, 6);\n\
         \x20   double t3[6] = {0};\n    mat_sigmoid(t3, M, 6);\n\
         \x20   double t4[6] = {0};\n    mat_transpose(t4, M, 2, 3);\n"
    ));
}

#[test]
fn pipe_into_relu_clamps_a_vector() {
    let code = body("let v = [1, -2]; v |> relu();");
    assert!(code.ends_with("    vec_relu(v, 2);\n"));
}

#[test]
fn loss_is_a_scalar_temporary() {
    let code = body("let P = zeros(2, 2); let T = zeros(2, 2); let loss = mse_loss(P, T);");
    assert!(code.ends_with("    double t3 = mat_mse_loss(P, T, 4);\n    double loss = t3;\n"));
}

#[test]
fn print_by_type() {
    let code = body("let v = [1]; let M = zeros(1, 2); let x = 3; print(v); print(M); print(x);");
    assert!(code.ends_with(
        "    print_vector(v, 1);\n    print_matrix(M, 1, 2);\n    printf(\"%.4f\\n\", x);\n"
    ));
}

#[test]
fn slice_of_a_non_matrix_is_a_generation_error() {
    let (_, checker) = checked("let v = [1, 2];");
    let mut lexer = Lexer::new("v[0..1, 0..1];");
    let mut parser = Parser::new(lexer.tokenize());
    let slice = parser.parse_program();
    let mut generator = CodeGenerator::new();
    assert!(matches!(
        generator.try_generate(&slice, &checker),
        Err(GenError::ExpectedMatrixForSlice)
    ));
}

#[test]
fn unknown_name_is_a_generation_error() {
    let (_, checker) = checked("");
    let mut lexer = Lexer::new("print(q);");
    let mut parser = Parser::new(lexer.tokenize());
    let prog = parser.parse_program();
    let mut generator = CodeGenerator::new();
    assert!(matches!(generator.try_generate(&prog, &checker), Err(GenError::Check(_))));
}

#[test]
fn matmul_of_scalars_is_a_generation_error() {
    let (_, checker) = checked("");
    let mut lexer = Lexer::new("1 @ 2;");
    let mut parser = Parser::new(lexer.tokenize());
    let prog = parser.parse_program();
    let mut generator = CodeGenerator::new();
    assert!(matches!(
        generator.try_generate(&prog, &checker),
        Err(GenError::UnsupportedMatMul)
    ));
}

#[test]
fn element_wise_on_scalars_is_a_generation_error() {
    let (_, checker) = checked("");
    let mut lexer = Lexer::new("1 .+ 2;");
    let mut parser = Parser::new(lexer.tokenize());
    let prog = parser.parse_program();
    let mut generator = CodeGenerator::new();
    assert!(matches!(
        generator.try_generate(&prog, &checker),
        Err(GenError::ElementwiseNonArray)
    ));
}

#[test]
fn reversed_slice_is_a_size_error() {
    let (_, checker) = checked("let v = [1, 2, 3];");
    let mut lexer = Lexer::new("v[2..1];");
    let mut parser = Parser::new(lexer.tokenize());
    let prog = parser.parse_program();
    let mut generator = CodeGenerator::new();
    assert!(matches!(
        generator.try_generate(&prog, &checker),
        Err(GenError::SizeOverflow)
    ));
}

#[test]
fn temporaries_continue_across_programs() {
    let (prog, checker) = checked("let v = [1];");
    let mut generator = CodeGenerator::new();
    let first = generator.try_generate(&prog, &checker).unwrap();
    let second = generator.try_generate(&prog, &checker).unwrap();
    assert!(first.contains("double t1[1] = {1};"));
    assert!(second.contains("double t2[1] = {1};"));
}
