use qlang::codegen_spec::{EPILOGUE, PRELUDE};
use qlang::compiler::{compile_source, executable_name, CompileError};
use qlang::numbers::{literal_to_usize, number_to_text};

const README_EXAMPLE: &str = "// Read a dataset from a CSV file with 2 rows and 2 columns
let X = read_csv(2, 2);

// Initialize the weight matrix
let W = [
    [0.5, 0.1],
    [-0.2, 0.8]
];

// Define the target values
let Target = [
    [1.0, 0.0],
    [0.0, 1.0]
];

// Perform matrix multiplication and apply sigmoid activation
let Z = X * W;
let Pred = sigmoid(Z);

// Calculate the Mean Squared Error loss
let loss = mse_loss(Pred, Target);

print(loss);
";

#[test]
fn compiles_the_readme_example() {
    let code = compile_source(README_EXAMPLE).expect("the example compiles");
    let expected_body = "    double t1[4] = {0};
    read_csv_file(t1, 2, 2, \"data.csv\");
    double X[4] = {0};
    for(int i=0; i<4; i++) X[i] = t1[i];
    double t2[4] = {0.5, 0.1, -0.2, 0.8};
    double W[4] = {0};
    for(int i=0; i<4; i++) W[i] = t2[i];
    double t3[4] = {1, 0, 0, 1};
    double Target[4] = {0};
    for(int i=0; i<4; i++) Target[i] = t3[i];
    double t4[4] = {0};
    mat_mat_mul(t4, X, W, 2, 2, 2);
    double Z[4] = {0};
    for(int i=0; i<4; i++) Z[i] = t4[i];
    double t5[4] = {0};
    mat_sigmoid(t5, Z, 4);
    double Pred[4] = {0};
    for(int i=0; i<4; i++) Pred[i] = t5[i];
    double t6 = mat_mse_loss(Pred, Target, 4);
    double loss = t6;
    printf(\"%.4f\\n\", loss);
";
    assert_eq!(code, format!("{}{}{}", PRELUDE, expected_body, EPILOGUE));
}

#[test]
fn compiles_generators_and_slices() {
    let code = compile_source("let Z = zeros(3, 3); let R = random(2, 4); let sub = Z[0..2, 1..3];")
        .expect("compiles");
    assert!(code.contains("    mat_zeros(t1, 9);\n"));
    assert!(code.contains("    mat_random(t2, 8);\n"));
    assert!(code.contains("    mat_slice(t3, Z, 3, 0, 2, 1, 3);\n"));
}

#[test]
fn shape_error_stops_before_code() {
    match compile_source("let A = zeros(2, 3); let B = zeros(2, 3); let C = A * B;") {
        Err(CompileError::Check(e)) => {
            assert_eq!(format!("{:?}", e), "MatMulMismatch { r1: 2, c1: 3, r2: 2, c2: 3 }")
        }
        other => panic!("unexpected result {:?}", other),
    }
}

#[test]
fn loss_shape_error_stops_before_code() {
    match compile_source("let P = zeros(2, 2); let T = zeros(2, 3); let l = mse_loss(P, T);") {
        Err(CompileError::Check(e)) => {
            assert_eq!(format!("{:?}", e), "LossShapeMismatch { r1: 2, c1: 2, r2: 2, c2: 3 }")
        }
        other => panic!("unexpected result {:?}", other),
    }
}

#[test]
fn lexing_error_is_reported_first() {
    match compile_source("let x = 1; #") {
        Err(CompileError::Lex(e)) => assert_eq!(format!("{:?}", e), "UnexpectedCharacter('#')"),
        other => panic!("unexpected result {:?}", other),
    }
}

#[test]
fn parsing_error_is_reported() {
    match compile_source("let = 1;") {
        Err(CompileError::Parse(e)) => assert_eq!(format!("{:?}", e), "ExpectedIdentifier"),
        other => panic!("unexpected result {:?}", other),
    }
}

#[test]
fn generation_error_is_reported() {
    match compile_source("let z = zeros(10000000000, 10000000000);") {
        Err(CompileError::Generate(e)) => assert_eq!(format!("{:?}", e), "SizeOverflow"),
        other => panic!("unexpected result {:?}", other),
    }
}

#[test]
fn comments_do_not_change_the_code() {
    let with = compile_source("// setup\nlet M = zeros(2, 2); // two by two\nprint(M);").unwrap();
    let without = compile_source("let M = zeros(2, 2);\nprint(M);").unwrap();
    assert_eq!(with, without);
}

#[test]
fn executable_name_from_source_path() {
    assert_eq!(executable_name("test.ql", None), "test.exe");
    assert_eq!(executable_name("dir/model.ql", None), "dir/model.exe");
    assert_eq!(executable_name("a.qlb.ql", None), "ab.exe");
    assert_eq!(executable_name("noext", None), "noext.exe");
}

#[test]
fn executable_name_given() {
    assert_eq!(executable_name("test.ql", Some("out".to_string())), "out.exe");
    assert_eq!(executable_name("test.ql", Some("out.exe".to_string())), "out.exe");
    assert_eq!(executable_name("test.ql", Some(".exe".to_string())), ".exe");
}

#[test]
fn number_text_is_shortest_decimal() {
    let cases = [
        ("5", "5"),
        ("3.14", "3.14"),
        ("2.50", "2.5"),
        ("1.0", "1"),
        ("007", "7"),
        ("0", "0"),
        ("0.0", "0"),
        ("-0.2", "-0.2"),
        ("10", "10"),
        ("100.500", "100.5"),
        ("0.05", "0.05"),
    ];
    for (literal, text) in cases {
        assert_eq!(number_to_text(&literal.to_string()), text, "literal {}", literal);
    }
}

#[test]
fn number_text_agrees_with_float_formatting() {
    for literal in ["5", "3.14", "2.50", "1.0", "007", "0.5", "12.25", "-0.2", "-3"] {
        let value: f64 = literal.parse().unwrap();
        assert_eq!(number_to_text(&literal.to_string()), value.to_string(), "literal {}", literal);
    }
}

#[test]
fn literal_counts_truncate() {
    assert_eq!(literal_to_usize(&"3".to_string()), 3);
    assert_eq!(literal_to_usize(&"2.9".to_string()), 2);
    assert_eq!(literal_to_usize(&"-4".to_string()), 0);
    assert_eq!(literal_to_usize(&"0010".to_string()), 10);
    assert_eq!(
        literal_to_usize(&"99999999999999999999999".to_string()),
        usize::MAX
    );
}

#[test]
fn later_literal_element_error_stops_before_code() {
    match compile_source("let x = [1, q @ q];") {
        Err(CompileError::Check(e)) => {
            assert_eq!(format!("{:?}", e), "UndefinedVariable(\"q\")")
        }
        other => panic!("unexpected result {:?}", other),
    }
}

#[test]
fn rebinding_a_name_changes_its_type_for_generation() {
    match compile_source("let x = [1]; let y = x @ zeros(1, 1); let x = 5;") {
        Err(CompileError::Generate(e)) => assert_eq!(format!("{:?}", e), "UnsupportedMatMul"),
        other => panic!("unexpected result {:?}", other),
    }
}

#[test]
fn checked_program_with_fresh_names_compiles() {
    let code = compile_source(
        "let A = random(2, 3); let B = transpose(A); let C = A @ B; let s = mse_loss(C, C); print(s);",
    )
    .expect("compiles");
    assert!(code.contains("    mat_mat_mul(t3, A, B, 2, 3, 2);\n"));
    assert!(code.contains("    double t4 = mat_mse_loss(C, C, 4);\n"));
}

#[test]
fn activation_of_unbound_name_stops_before_code() {
    match compile_source("relu(u);") {
        Err(CompileError::Check(e)) => {
            assert_eq!(format!("{:?}", e), "UndefinedVariable(\"u\")")
        }
        other => panic!("unexpected result {:?}", other),
    }
}
