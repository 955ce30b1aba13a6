//! The whole compilation of a QLang source text: lexing, parsing, type and
//! shape checking, and C code generation, each stage stopping the next; and
//! the name of the executable built from a source file.
use vstd::prelude::*;
use crate::ast::SpecStatement;
use crate::chars::{chars_of, string_from_chars};
use crate::checker::{
    builtin_table, check_statements, lets_fresh, CheckError,
    SpecCheckError, TypeChecker,
};
use crate::codegen::{CodeGenerator, GenError};
use crate::codegen_spec::{lemma_gen_statements_ok, spec_generate, SpecGenError};
use crate::lexer::{
    space_classes, spec_tokenize, spec_tokenize_classified, tokens_model, word_classes, LexError,
    Lexer, SpecToken,
};
use crate::parser::{ends_with_eof, ParseError, Parser};
use crate::parser_spec::{spec_parse_program, SpecParseError};

verus! {

/// Why a source text does not compile: the stage that rejects it.
#[derive(Debug)]
pub enum CompileError {
    Lex(LexError),
    Parse(ParseError),
    Check(CheckError),
    Generate(GenError),
}

/// The mathematical model of a compile error.
pub enum SpecCompileError {
    Lex(LexError),
    Parse(SpecParseError),
    Check(SpecCheckError),
    Generate(SpecGenError),
}

impl View for CompileError {
    type V = SpecCompileError;

    open spec fn view(&self) -> SpecCompileError {
        match self {
            CompileError::Lex(e) => SpecCompileError::Lex(*e),
            CompileError::Parse(e) => SpecCompileError::Parse(e@),
            CompileError::Check(e) => SpecCompileError::Check(e@),
            CompileError::Generate(e) => SpecCompileError::Generate(e@),
        }
    }
}

/// The C program for `source`, or the first stage that rejects it. The
/// checker starts from the built-in functions; code is generated with the
/// table that checking ends with.
pub open spec fn spec_compile(source: Seq<char>) -> Result<Seq<char>, SpecCompileError> {
    match spec_tokenize(source, 0) {
        Err(e) => Err(SpecCompileError::Lex(e)),
        Ok(tokens) => match spec_parse_program(tokens, 0) {
            Err(e) => Err(SpecCompileError::Parse(e)),
            Ok(stmts) => match check_statements(builtin_table(), stmts) {
                Err(e) => Err(SpecCompileError::Check(e)),
                Ok(m) => match spec_generate(m, stmts, 0) {
                    Err(e) => Err(SpecCompileError::Generate(e)),
                    Ok((code, _)) => Ok(code),
                },
            },
        },
    }
}

/// What the lexer gives is what the parser takes: a successful
/// tokenization, however the characters are classed, ends with `Eof`, and
/// has `Eof` nowhere before.
pub proof fn law_tokens_end_with_eof(s: Seq<char>, space: Seq<bool>, word: Seq<bool>, i: int)
    ensures
        spec_tokenize_classified(s, space, word, i) matches Ok(ts) ==> ends_with_eof(ts) && forall|
            k: int,
        | 0 <= k < ts.len() - 1 ==> ts[k] != SpecToken::Eof,
{
    crate::lexer::lemma_lex_from_no_eof(s, space, word, i);
}

/// A program that fails type or shape checking gets no C code: compiling
/// it gives the checking error.
pub proof fn law_rejected_program_gets_no_code(
    source: Seq<char>,
    tokens: Seq<SpecToken>,
    stmts: Seq<SpecStatement>,
)
    requires
        spec_tokenize(source, 0) == Ok::<Seq<SpecToken>, LexError>(tokens),
        spec_parse_program(tokens, 0) == Ok::<Seq<SpecStatement>, SpecParseError>(stmts),
        check_statements(builtin_table(), stmts) is Err,
    ensures
        spec_compile(source) is Err,
        spec_compile(source) == Err::<Seq<char>, SpecCompileError>(
            SpecCompileError::Check(check_statements(builtin_table(), stmts)->Err_0),
        ),
{
}

/// A program that lexes, parses and checks is turned into C, provided no
/// `let` rebinds a name (a built-in or an earlier `let`): compiling it fails
/// at most because an array size or the count of temporaries does not fit in
/// a `usize`. Type and shape errors are all found by the checker.
pub proof fn law_checked_program_compiles(
    source: Seq<char>,
    tokens: Seq<SpecToken>,
    stmts: Seq<SpecStatement>,
)
    requires
        spec_tokenize(source, 0) == Ok::<Seq<SpecToken>, LexError>(tokens),
        spec_parse_program(tokens, 0) == Ok::<Seq<SpecStatement>, SpecParseError>(stmts),
        check_statements(builtin_table(), stmts) is Ok,
        lets_fresh(builtin_table(), stmts),
    ensures
        spec_compile(source) is Ok || spec_compile(source) == Err::<Seq<char>, SpecCompileError>(
            SpecCompileError::Generate(SpecGenError::SizeOverflow),
        ),
{
    let mf = check_statements(builtin_table(), stmts)->Ok_0;
    lemma_gen_statements_ok(builtin_table(), mf, stmts, 0);
}

/// Compiles QLang source text to a C program: tokenize, parse, check,
/// generate; fails with the error of the first stage that rejects it.
pub fn compile_source(source: &str) -> (r: Result<String, CompileError>)
    ensures
        match spec_compile(source@) {
            Ok(code) => r matches Ok(s) && s@ == code,
            Err(e) => r matches Err(x) && x@ == e,
        },
{
    let mut lexer = Lexer::new(source);
    let tokens = match lexer.try_tokenize() {
        Ok(ts) => ts,
        Err(e) => return Err(CompileError::Lex(e)),
    };
    proof {
        law_tokens_end_with_eof(source@, space_classes(source@), word_classes(source@), 0);
        let t = tokens_model(tokens@);
        assert(t[t.len() - 1] == SpecToken::Eof);
    }
    let mut parser = Parser::new(tokens);
    let program = match parser.try_parse_program() {
        Ok(p) => p,
        Err(e) => return Err(CompileError::Parse(e)),
    };
    let mut checker = TypeChecker::new();
    match checker.try_check_program(&program) {
        Ok(()) => {},
        Err(e) => return Err(CompileError::Check(e)),
    }
    let mut codegen = CodeGenerator::new();
    match codegen.try_generate(&program, &checker) {
        Ok(code) => Ok(code),
        Err(e) => Err(CompileError::Generate(e)),
    }
}


/// The characters of `.ql`.
pub open spec fn ql_suffix() -> Seq<char> {
    seq!['.', 'q', 'l']
}

/// The characters of `.exe`.
pub open spec fn exe_suffix() -> Seq<char> {
    seq!['.', 'e', 'x', 'e']
}

/// `s` with every `.ql` removed, the occurrences found left to right
/// without overlap.
pub open spec fn without_ql(s: Seq<char>) -> Seq<char>
    decreases s.len(),
{
    if s.len() == 0 {
        seq![]
    } else if s.len() >= 3 && s.subrange(0, 3) == ql_suffix() {
        without_ql(s.subrange(3, s.len() as int))
    } else {
        seq![s[0]] + without_ql(s.subrange(1, s.len() as int))
    }
}

/// `name`, with `.exe` added unless it already ends so.
pub open spec fn with_exe(name: Seq<char>) -> Seq<char> {
    if exe_suffix().is_suffix_of(name) {
        name
    } else {
        name + exe_suffix()
    }
}

/// The name of the executable built from the source file `file_path`: the
/// name given, with `.exe` added unless it ends so; without a name, the path
/// with every `.ql` removed and `.exe` added.
pub fn executable_name(file_path: &str, output_name: Option<String>) -> (name: String)
    ensures
        match output_name {
            Some(given) => name@ == with_exe(given@),
            None => name@ == without_ql(file_path@) + exe_suffix(),
        },
{
    match output_name {
        Some(given) => {
            let t = chars_of(given.as_str());
            let n = t.len();
            let ends_exe = n >= 4 && t[n - 4] == '.' && t[n - 3] == 'e' && t[n - 2] == 'x' && t[n - 1] == 'e';
            proof {
                if ends_exe {
                    assert(t@.subrange(n - 4, n as int) =~= exe_suffix());
                } else if exe_suffix().is_suffix_of(t@) {
                    let suffix = t@.subrange(n - 4, n as int);
                    assert(suffix[0] == exe_suffix()[0]);
                    assert(suffix[1] == exe_suffix()[1]);
                    assert(suffix[2] == exe_suffix()[2]);
                    assert(suffix[3] == exe_suffix()[3]);
                }
            }
            if ends_exe {
                given
            } else {
                let mut out = t;
                out.push('.');
                out.push('e');
                out.push('x');
                out.push('e');
                assert(out@ =~= given@ + exe_suffix());
                string_from_chars(&out)
            }
        },
        None => {
            let t = chars_of(file_path);
            let n = t.len();
            let mut out: Vec<char> = Vec::new();
            let mut i: usize = 0;
            assert(t@.subrange(0, n as int) =~= t@);
            assert(out@ + without_ql(t@) =~= without_ql(t@));
            while i < n
                invariant
                    n == t@.len(),
                    i <= n,
                    out@ + without_ql(t@.subrange(i as int, n as int)) == without_ql(t@),
                decreases n - i,
            {
                let ghost rest = t@.subrange(i as int, n as int);
                if n - i >= 3 && t[i] == '.' && t[i + 1] == 'q' && t[i + 2] == 'l' {
                    assert(rest.subrange(0, 3) =~= ql_suffix());
                    assert(rest.subrange(3, rest.len() as int) =~= t@.subrange(i + 3, n as int));
                    i = i + 3;
                } else {
                    proof {
                        if rest.len() >= 3 && rest.subrange(0, 3) == ql_suffix() {
                            assert(rest.subrange(0, 3)[0] == rest[0]);
                            assert(rest.subrange(0, 3)[1] == rest[1]);
                            assert(rest.subrange(0, 3)[2] == rest[2]);
                        }
                        assert(rest.subrange(1, rest.len() as int) =~= t@.subrange(i + 1, n as int));
                    }
                    let ghost before = out@;
                    out.push(t[i]);
                    assert(out@ + without_ql(t@.subrange(i + 1, n as int)) =~= before + (seq![rest[0]] + without_ql(rest.subrange(1, rest.len() as int))));
                    i = i + 1;
                }
            }
            assert(t@.subrange(n as int, n as int) =~= seq![]);
            assert(out@ + seq![] =~= out@);
            out.push('.');
            out.push('e');
            out.push('x');
            out.push('e');
            assert(out@ =~= without_ql(t@) + exe_suffix());
            string_from_chars(&out)
        },
    }
}

} // verus!
