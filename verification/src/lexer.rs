//! The lexer: from source text to tokens.
use vstd::prelude::*;
use crate::chars::{
    char_is_alphanumeric, char_is_whitespace, chars_of, is_alphanumeric, is_digit, is_ident_start,
    is_whitespace, string_from_chars,
};

verus! {

/// A token of QLang source text. A number keeps the text it was written with.
#[derive(Debug)]
pub enum Token {
    Let,
    Ident(String),
    Colon,
    Assign,
    Semicolon,
    Number(String),
    Decimal(String),
    Plus,
    Minus,
    Star,
    Slash,
    At,
    PipeGreater,
    DotPlus,
    DotMinus,
    DotStar,
    DotSlash,
    LParen,
    RParen,
    LBracket,
    RBracket,
    Comma,
    DotDot,
    Eof,
}

/// The mathematical model of a token.
pub enum SpecToken {
    Let,
    Ident(Seq<char>),
    Colon,
    Assign,
    Semicolon,
    Number(Seq<char>),
    Decimal(Seq<char>),
    Plus,
    Minus,
    Star,
    Slash,
    At,
    PipeGreater,
    DotPlus,
    DotMinus,
    DotStar,
    DotSlash,
    LParen,
    RParen,
    LBracket,
    RBracket,
    Comma,
    DotDot,
    Eof,
}

impl View for Token {
    type V = SpecToken;

    open spec fn view(&self) -> SpecToken {
        match self {
            Token::Let => SpecToken::Let,
            Token::Ident(s) => SpecToken::Ident(s@),
            Token::Colon => SpecToken::Colon,
            Token::Assign => SpecToken::Assign,
            Token::Semicolon => SpecToken::Semicolon,
            Token::Number(s) => SpecToken::Number(s@),
            Token::Decimal(s) => SpecToken::Decimal(s@),
            Token::Plus => SpecToken::Plus,
            Token::Minus => SpecToken::Minus,
            Token::Star => SpecToken::Star,
            Token::Slash => SpecToken::Slash,
            Token::At => SpecToken::At,
            Token::PipeGreater => SpecToken::PipeGreater,
            Token::DotPlus => SpecToken::DotPlus,
            Token::DotMinus => SpecToken::DotMinus,
            Token::DotStar => SpecToken::DotStar,
            Token::DotSlash => SpecToken::DotSlash,
            Token::LParen => SpecToken::LParen,
            Token::RParen => SpecToken::RParen,
            Token::LBracket => SpecToken::LBracket,
            Token::RBracket => SpecToken::RBracket,
            Token::Comma => SpecToken::Comma,
            Token::DotDot => SpecToken::DotDot,
            Token::Eof => SpecToken::Eof,
        }
    }
}

/// The models of a sequence of tokens.
pub open spec fn tokens_model(s: Seq<Token>) -> Seq<SpecToken> {
    s.map_values(|t: Token| t@)
}

/// Why lexing stopped: a character that starts no token.
#[derive(Debug, Clone, Copy, PartialEq, Eq, Structural)]
pub enum LexError {
    UnexpectedCharacter(char),
}

/// The character at `i`, if there is one.
pub open spec fn char_at(s: Seq<char>, i: int) -> Option<char> {
    if 0 <= i < s.len() {
        Some(s[i])
    } else {
        None
    }
}

/// Whether each character of `s` is whitespace, as `char::is_whitespace`
/// classifies it.
pub open spec fn space_classes(s: Seq<char>) -> Seq<bool> {
    Seq::new(s.len(), |k: int| char_is_whitespace(s[k]))
}

/// Whether each character of `s` is alphanumeric, as `char::is_alphanumeric`
/// classifies it.
pub open spec fn word_classes(s: Seq<char>) -> Seq<bool> {
    Seq::new(s.len(), |k: int| char_is_alphanumeric(s[k]))
}

/// The end of the run of identifier characters that starts at `k`: those
/// classed alphanumeric in `word`, and `_`.
pub open spec fn ident_end(s: Seq<char>, word: Seq<bool>, k: int) -> int
    decreases s.len() - k,
{
    if 0 <= k < s.len() && (word[k] || s[k] == '_') {
        ident_end(s, word, k + 1)
    } else {
        k
    }
}

/// The end of a number literal scanned from `k`: digits, and one `.` that
/// is not the start of `..`, unless a `.` was already taken (`seen_dot`).
pub open spec fn number_end(s: Seq<char>, k: int, seen_dot: bool) -> int
    decreases s.len() - k,
{
    if 0 <= k < s.len() {
        if is_digit(s[k]) {
            number_end(s, k + 1, seen_dot)
        } else if s[k] == '.' && char_at(s, k + 1) != Some('.') && !seen_dot {
            number_end(s, k + 1, true)
        } else {
            k
        }
    } else {
        k
    }
}

/// The position of the line break that ends a comment started at `k`
/// (or the end of the text).
pub open spec fn comment_end(s: Seq<char>, k: int) -> int
    decreases s.len() - k,
{
    if 0 <= k < s.len() && s[k] != '\n' {
        comment_end(s, k + 1)
    } else {
        k
    }
}

/// The token of a single-character symbol.
pub open spec fn symbol_token(c: char) -> Option<SpecToken> {
    if c == '=' {
        Some(SpecToken::Assign)
    } else if c == ':' {
        Some(SpecToken::Colon)
    } else if c == ';' {
        Some(SpecToken::Semicolon)
    } else if c == ',' {
        Some(SpecToken::Comma)
    } else if c == '+' {
        Some(SpecToken::Plus)
    } else if c == '-' {
        Some(SpecToken::Minus)
    } else if c == '*' {
        Some(SpecToken::Star)
    } else if c == '/' {
        Some(SpecToken::Slash)
    } else if c == '@' {
        Some(SpecToken::At)
    } else if c == '(' {
        Some(SpecToken::LParen)
    } else if c == ')' {
        Some(SpecToken::RParen)
    } else if c == '[' {
        Some(SpecToken::LBracket)
    } else if c == ']' {
        Some(SpecToken::RBracket)
    } else {
        None
    }
}

/// The token of `.` followed by `c`.
pub open spec fn dot_token(c: char) -> Option<SpecToken> {
    if c == '.' {
        Some(SpecToken::DotDot)
    } else if c == '+' {
        Some(SpecToken::DotPlus)
    } else if c == '-' {
        Some(SpecToken::DotMinus)
    } else if c == '*' {
        Some(SpecToken::DotStar)
    } else if c == '/' {
        Some(SpecToken::DotSlash)
    } else {
        None
    }
}

/// The token that starts at `i` (not whitespace, not a comment), and where
/// the next one may start.
pub open spec fn lex_token(s: Seq<char>, word: Seq<bool>, i: int) -> Result<(SpecToken, int), LexError> {
    let c = s[i];
    match symbol_token(c) {
        Some(t) => Ok((t, i + 1)),
        None => if c == '|' {
            if char_at(s, i + 1) == Some('>') {
                Ok((SpecToken::PipeGreater, i + 2))
            } else {
                Err(LexError::UnexpectedCharacter('|'))
            }
        } else if c == '.' {
            match char_at(s, i + 1) {
                Some(d) => match dot_token(d) {
                    Some(t) => Ok((t, i + 2)),
                    None => Err(LexError::UnexpectedCharacter('.')),
                },
                None => Err(LexError::UnexpectedCharacter('.')),
            }
        } else if is_ident_start(c) {
            let j = ident_end(s, word, i + 1);
            let text = s.subrange(i, j);
            if text == seq!['l', 'e', 't'] {
                Ok((SpecToken::Let, j))
            } else {
                Ok((SpecToken::Ident(text), j))
            }
        } else if is_digit(c) {
            let j = number_end(s, i, false);
            Ok((SpecToken::Number(s.subrange(i, j)), j))
        } else {
            Err(LexError::UnexpectedCharacter(c))
        },
    }
}

/// Puts `acc` in front of the tokens of a lexing result.
pub open spec fn prefix_tokens(
    acc: Seq<SpecToken>,
    r: Result<Seq<SpecToken>, LexError>,
) -> Result<Seq<SpecToken>, LexError> {
    match r {
        Ok(ts) => Ok(acc + ts),
        Err(e) => Err(e),
    }
}

/// The tokens of the text from position `i` on (without the final `Eof`),
/// or the first character that starts no token; `space` and `word` class
/// each character as whitespace and as alphanumeric.
pub open spec fn lex_from(s: Seq<char>, space: Seq<bool>, word: Seq<bool>, i: int) -> Result<
    Seq<SpecToken>,
    LexError,
>
    decreases s.len() - i,
{
    if i < 0 || i >= s.len() {
        Ok(seq![])
    } else if space[i] {
        lex_from(s, space, word, i + 1)
    } else if s[i] == '/' && char_at(s, i + 1) == Some('/') {
        proof {
            lemma_comment_end(s, i);
        }
        lex_from(s, space, word, comment_end(s, i))
    } else {
        proof {
            lemma_lex_token_advances(s, word, i);
        }
        match lex_token(s, word, i) {
            Ok((t, j)) => prefix_tokens(seq![t], lex_from(s, space, word, j)),
            Err(e) => Err(e),
        }
    }
}

/// What tokenizing the text from position `i` gives, with the characters
/// classed by `space` and `word`: its tokens followed by `Eof`.
pub open spec fn spec_tokenize_classified(
    s: Seq<char>,
    space: Seq<bool>,
    word: Seq<bool>,
    i: int,
) -> Result<Seq<SpecToken>, LexError> {
    match lex_from(s, space, word, i) {
        Ok(ts) => Ok(ts.push(SpecToken::Eof)),
        Err(e) => Err(e),
    }
}

/// What tokenizing the text from position `i` gives: its tokens followed by
/// `Eof`, the characters classed as `char::is_whitespace` and
/// `char::is_alphanumeric` class them.
pub open spec fn spec_tokenize(s: Seq<char>, i: int) -> Result<Seq<SpecToken>, LexError> {
    spec_tokenize_classified(s, space_classes(s), word_classes(s), i)
}

pub proof fn lemma_ident_end(s: Seq<char>, word: Seq<bool>, k: int)
    requires
        0 <= k <= s.len(),
    ensures
        k <= ident_end(s, word, k) <= s.len(),
    decreases s.len() - k,
{
    if k < s.len() && (word[k] || s[k] == '_') {
        lemma_ident_end(s, word, k + 1);
    }
}

pub proof fn lemma_number_end(s: Seq<char>, k: int, seen_dot: bool)
    requires
        0 <= k <= s.len(),
    ensures
        k <= number_end(s, k, seen_dot) <= s.len(),
    decreases s.len() - k,
{
    if k < s.len() {
        if is_digit(s[k]) {
            lemma_number_end(s, k + 1, seen_dot);
        } else if s[k] == '.' && char_at(s, k + 1) != Some('.') && !seen_dot {
            lemma_number_end(s, k + 1, true);
        }
    }
}

pub proof fn lemma_comment_end(s: Seq<char>, k: int)
    requires
        0 <= k <= s.len(),
    ensures
        k <= comment_end(s, k) <= s.len(),
        s[k] == '/' && k < s.len() ==> k < comment_end(s, k),
    decreases s.len() - k,
{
    if k < s.len() && s[k] != '\n' {
        lemma_comment_end(s, k + 1);
    }
}

/// A token always takes at least one character, and never more than there are.
pub proof fn lemma_lex_token_advances(s: Seq<char>, word: Seq<bool>, i: int)
    requires
        0 <= i < s.len(),
    ensures
        lex_token(s, word, i) matches Ok((_, j)) ==> i < j <= s.len(),
{
    lemma_ident_end(s, word, i + 1);
    lemma_number_end(s, i, false);
    if is_digit(s[i]) {
        lemma_number_end(s, i + 1, false);
    }
}

/// The tokens lexed from `i` on never include `Eof`.
pub proof fn lemma_lex_from_no_eof(s: Seq<char>, space: Seq<bool>, word: Seq<bool>, i: int)
    ensures
        lex_from(s, space, word, i) matches Ok(ts) ==> forall|k: int|
            0 <= k < ts.len() ==> ts[k] != SpecToken::Eof,
    decreases s.len() - i,
{
    if i < 0 || i >= s.len() {
    } else if space[i] {
        lemma_lex_from_no_eof(s, space, word, i + 1);
    } else if s[i] == '/' && char_at(s, i + 1) == Some('/') {
        lemma_comment_end(s, i);
        lemma_lex_from_no_eof(s, space, word, comment_end(s, i));
    } else {
        lemma_lex_token_advances(s, word, i);
        match lex_token(s, word, i) {
            Ok((t, j)) => {
                lemma_lex_from_no_eof(s, space, word, j);
                assert(t != SpecToken::Eof);
                match lex_from(s, space, word, j) {
                    Ok(rest) => {
                        let ts = seq![t] + rest;
                        assert forall|k: int| 0 <= k < ts.len() implies ts[k] != SpecToken::Eof by {
                            if k > 0 {
                                assert(ts[k] == rest[k - 1]);
                            }
                        }
                    },
                    Err(_) => {},
                }
            },
            Err(_) => {},
        }
    }
}

/// Lexing looks only forward: after a prefix `p`, the text `s` lexes from
/// `p.len() + i` as it does alone from `i`.
proof fn lemma_comment_end_shift(p: Seq<char>, s: Seq<char>, k: int)
    requires
        0 <= k <= s.len(),
    ensures
        comment_end(p + s, p.len() + k) == p.len() + comment_end(s, k),
    decreases s.len() - k,
{
    if k < s.len() {
        assert((p + s)[p.len() + k] == s[k]);
        if s[k] != '\n' {
            lemma_comment_end_shift(p, s, k + 1);
        }
    }
}

proof fn lemma_ident_end_shift(p: Seq<char>, s: Seq<char>, wp: Seq<bool>, ws: Seq<bool>, k: int)
    requires
        0 <= k <= s.len(),
        wp.len() == p.len(),
        ws.len() == s.len(),
    ensures
        ident_end(p + s, wp + ws, p.len() + k) == p.len() + ident_end(s, ws, k),
    decreases s.len() - k,
{
    if k < s.len() {
        assert((p + s)[p.len() + k] == s[k]);
        assert((wp + ws)[p.len() + k] == ws[k]);
        if ws[k] || s[k] == '_' {
            lemma_ident_end_shift(p, s, wp, ws, k + 1);
        }
    }
}

proof fn lemma_number_end_shift(p: Seq<char>, s: Seq<char>, k: int, seen_dot: bool)
    requires
        0 <= k <= s.len(),
    ensures
        number_end(p + s, p.len() + k, seen_dot) == p.len() + number_end(s, k, seen_dot),
    decreases s.len() - k,
{
    if k < s.len() {
        assert((p + s)[p.len() + k] == s[k]);
        assert(char_at(p + s, p.len() + k + 1) == char_at(s, k + 1)) by {
            if k + 1 < s.len() {
                assert((p + s)[p.len() + k + 1] == s[k + 1]);
            }
        }
        if is_digit(s[k]) {
            lemma_number_end_shift(p, s, k + 1, seen_dot);
        } else if s[k] == '.' && char_at(s, k + 1) != Some('.') && !seen_dot {
            lemma_number_end_shift(p, s, k + 1, true);
        }
    }
}

proof fn lemma_lex_from_shift(
    p: Seq<char>,
    s: Seq<char>,
    sp: Seq<bool>,
    ss: Seq<bool>,
    wp: Seq<bool>,
    ws: Seq<bool>,
    i: int,
)
    requires
        0 <= i <= s.len(),
        sp.len() == p.len(),
        wp.len() == p.len(),
        ss.len() == s.len(),
        ws.len() == s.len(),
    ensures
        lex_from(p + s, sp + ss, wp + ws, p.len() + i) == lex_from(s, ss, ws, i),
    decreases s.len() - i,
{
    let t = p + s;
    let k = p.len() + i;
    if i < s.len() {
        assert(t[k] == s[i]);
        assert((sp + ss)[k] == ss[i]);
        assert(char_at(t, k + 1) == char_at(s, i + 1)) by {
            if i + 1 < s.len() {
                assert(t[k + 1] == s[i + 1]);
            }
        }
        if ss[i] {
            lemma_lex_from_shift(p, s, sp, ss, wp, ws, i + 1);
        } else if s[i] == '/' && char_at(s, i + 1) == Some('/') {
            lemma_comment_end(s, i);
            lemma_comment_end_shift(p, s, i);
            lemma_lex_from_shift(p, s, sp, ss, wp, ws, comment_end(s, i));
        } else {
            lemma_lex_token_advances(s, ws, i);
            lemma_ident_end(s, ws, i + 1);
            lemma_ident_end_shift(p, s, wp, ws, i + 1);
            lemma_number_end(s, i, false);
            lemma_number_end_shift(p, s, i, false);
            let j_id = ident_end(s, ws, i + 1);
            let j_num = number_end(s, i, false);
            assert(t.subrange(k, p.len() + j_id) =~= s.subrange(i, j_id));
            assert(t.subrange(k, p.len() + j_num) =~= s.subrange(i, j_num));
            match lex_token(s, ws, i) {
                Ok((tok, j)) => {
                    assert(lex_token(t, wp + ws, k) == Ok::<(SpecToken, int), LexError>((tok, p.len() + j)));
                    lemma_lex_from_shift(p, s, sp, ss, wp, ws, j);
                },
                Err(e) => {
                    assert(lex_token(t, wp + ws, k) == Err::<(SpecToken, int), LexError>(e));
                },
            }
        }
    }
}

/// Blank text after `s`: whitespace characters, classed as whitespace and
/// not alphanumeric.
pub open spec fn blank_after(b: Seq<char>, sb: Seq<bool>, wb: Seq<bool>) -> bool {
    &&& sb.len() == b.len()
    &&& wb.len() == b.len()
    &&& forall|j: int| 0 <= j < b.len() ==> char_is_whitespace(#[trigger] b[j]) && sb[j] && !wb[j]
}

proof fn lemma_ident_end_blank(s: Seq<char>, b: Seq<char>, ws: Seq<bool>, sb: Seq<bool>, wb: Seq<bool>, k: int)
    requires
        0 <= k <= s.len(),
        ws.len() == s.len(),
        blank_after(b, sb, wb),
    ensures
        ident_end(s + b, ws + wb, k) == ident_end(s, ws, k),
    decreases s.len() - k,
{
    if k < s.len() {
        assert((s + b)[k] == s[k]);
        assert((ws + wb)[k] == ws[k]);
        if ws[k] || s[k] == '_' {
            lemma_ident_end_blank(s, b, ws, sb, wb, k + 1);
        }
    } else if b.len() > 0 {
        assert((s + b)[k] == b[0]);
        assert((ws + wb)[k] == wb[0]);
        assert(char_is_whitespace(b[0]));
    }
}

proof fn lemma_number_end_blank(s: Seq<char>, b: Seq<char>, sb: Seq<bool>, wb: Seq<bool>, k: int, seen_dot: bool)
    requires
        0 <= k <= s.len(),
        blank_after(b, sb, wb),
    ensures
        number_end(s + b, k, seen_dot) == number_end(s, k, seen_dot),
    decreases s.len() - k,
{
    let t = s + b;
    if k < s.len() {
        assert(t[k] == s[k]);
        lemma_char_at_blank(s, b, sb, wb, k + 1);
        if is_digit(s[k]) {
            lemma_number_end_blank(s, b, sb, wb, k + 1, seen_dot);
        } else if s[k] == '.' && char_at(s, k + 1) != Some('.') && !seen_dot {
            lemma_number_end_blank(s, b, sb, wb, k + 1, true);
        }
    } else if b.len() > 0 {
        assert(t[k] == b[0]);
        assert(char_is_whitespace(b[0]));
    }
}

/// Looking one character ahead into the blank finds no character that
/// continues a token: none of `.`, `>`, `/`, `+`, `-`, `*`.
proof fn lemma_char_at_blank(s: Seq<char>, b: Seq<char>, sb: Seq<bool>, wb: Seq<bool>, k: int)
    requires
        0 <= k <= s.len(),
        blank_after(b, sb, wb),
    ensures
        k < s.len() ==> char_at(s + b, k) == char_at(s, k),
        k == s.len() ==> (char_at(s + b, k) matches Some(c) ==> char_is_whitespace(c)),
{
    if k < s.len() {
        assert((s + b)[k] == s[k]);
    } else if b.len() > 0 {
        assert((s + b)[k] == b[0]);
        assert(char_is_whitespace(b[0]));
    }
}

proof fn lemma_comment_end_blank(s: Seq<char>, b: Seq<char>, sb: Seq<bool>, wb: Seq<bool>, k: int)
    requires
        0 <= k <= s.len(),
        blank_after(b, sb, wb),
    ensures
        comment_end(s, k) < s.len() ==> comment_end(s + b, k) == comment_end(s, k),
        comment_end(s, k) == s.len() ==> s.len() <= comment_end(s + b, k) <= s.len() + b.len(),
    decreases s.len() - k,
{
    lemma_comment_end(s, k);
    lemma_comment_end(s + b, k);
    if k < s.len() {
        assert((s + b)[k] == s[k]);
        if s[k] != '\n' {
            lemma_comment_end_blank(s, b, sb, wb, k + 1);
        }
    }
}

/// Blank text at the end lexes to no tokens.
proof fn lemma_lex_from_blank_tail(s: Seq<char>, b: Seq<char>, ss: Seq<bool>, ws: Seq<bool>, sb: Seq<bool>, wb: Seq<bool>, k: int)
    requires
        s.len() <= k <= s.len() + b.len(),
        ss.len() == s.len(),
        ws.len() == s.len(),
        blank_after(b, sb, wb),
    ensures
        lex_from(s + b, ss + sb, ws + wb, k) == Ok::<Seq<SpecToken>, LexError>(seq![]),
    decreases s.len() + b.len() - k,
{
    if k < s.len() + b.len() {
        assert((ss + sb)[k] == sb[k - s.len()]);
        lemma_lex_from_blank_tail(s, b, ss, ws, sb, wb, k + 1);
    }
}

/// Blank text at the end of a text changes none of its tokens.
proof fn lemma_lex_from_blank(s: Seq<char>, b: Seq<char>, ss: Seq<bool>, ws: Seq<bool>, sb: Seq<bool>, wb: Seq<bool>, i: int)
    requires
        0 <= i <= s.len(),
        ss.len() == s.len(),
        ws.len() == s.len(),
        blank_after(b, sb, wb),
    ensures
        lex_from(s + b, ss + sb, ws + wb, i) == lex_from(s, ss, ws, i),
    decreases s.len() - i,
{
    let t = s + b;
    let sp = ss + sb;
    let wd = ws + wb;
    if i == s.len() {
        lemma_lex_from_blank_tail(s, b, ss, ws, sb, wb, i);
    } else {
        assert(t[i] == s[i]);
        assert(sp[i] == ss[i]);
        lemma_char_at_blank(s, b, sb, wb, i + 1);
        if ss[i] {
            lemma_lex_from_blank(s, b, ss, ws, sb, wb, i + 1);
        } else if s[i] == '/' && char_at(s, i + 1) == Some('/') {
            lemma_comment_end(s, i);
            lemma_comment_end_blank(s, b, sb, wb, i);
            if comment_end(s, i) < s.len() {
                lemma_lex_from_blank(s, b, ss, ws, sb, wb, comment_end(s, i));
            } else {
                lemma_lex_from_blank_tail(s, b, ss, ws, sb, wb, comment_end(t, i));
            }
        } else {
            lemma_lex_token_advances(s, ws, i);
            lemma_ident_end(s, ws, i + 1);
            lemma_ident_end_blank(s, b, ws, sb, wb, i + 1);
            lemma_number_end(s, i, false);
            lemma_number_end_blank(s, b, sb, wb, i, false);
            let j_id = ident_end(s, ws, i + 1);
            let j_num = number_end(s, i, false);
            assert(t.subrange(i, j_id) =~= s.subrange(i, j_id));
            assert(t.subrange(i, j_num) =~= s.subrange(i, j_num));
            assert(lex_token(t, wd, i) == lex_token(s, ws, i));
            match lex_token(s, ws, i) {
                Ok((tok, j)) => lemma_lex_from_blank(s, b, ss, ws, sb, wb, j),
                Err(_) => {},
            }
        }
    }
}

/// Whitespace at the end of a text does not change its tokens.
pub proof fn law_trailing_blank_is_skipped(s: Seq<char>, tail: Seq<char>)
    requires
        forall|j: int| 0 <= j < tail.len() ==> char_is_whitespace(#[trigger] tail[j]),
    ensures
        spec_tokenize(s + tail, 0) == spec_tokenize(s, 0),
{
    let t = s + tail;
    assert(space_classes(t) =~= space_classes(s) + space_classes(tail));
    assert(word_classes(t) =~= word_classes(s) + word_classes(tail));
    assert forall|j: int| 0 <= j < tail.len() implies char_is_whitespace(#[trigger] tail[j])
        && space_classes(tail)[j] && !word_classes(tail)[j] by {}
    lemma_lex_from_blank(
        s,
        tail,
        space_classes(s),
        word_classes(s),
        space_classes(tail),
        word_classes(tail),
        0,
    );
}

/// A `//` comment line at the start of the text, and whitespace around what
/// follows it, yield no tokens: the text lexes as what follows does.
pub proof fn law_leading_comment_is_skipped(
    body: Seq<char>,
    blank: Seq<char>,
    rest: Seq<char>,
    tail: Seq<char>,
)
    requires
        !body.contains('\n'),
        forall|j: int| 0 <= j < blank.len() ==> char_is_whitespace(#[trigger] blank[j]),
        forall|j: int| 0 <= j < tail.len() ==> char_is_whitespace(#[trigger] tail[j]),
    ensures
        spec_tokenize(seq!['/', '/'] + body + seq!['\n'] + blank + rest + tail, 0) == spec_tokenize(
            rest,
            0,
        ),
{
    let rest2 = rest + tail;
    assert(seq!['/', '/'] + body + seq!['\n'] + blank + rest + tail =~= seq!['/', '/'] + body
        + seq!['\n'] + blank + rest2);
    lemma_leading_comment(body, blank, rest2);
    law_trailing_blank_is_skipped(rest, tail);
}

proof fn lemma_leading_comment(body: Seq<char>, blank: Seq<char>, rest: Seq<char>)
    requires
        !body.contains('\n'),
        forall|j: int| 0 <= j < blank.len() ==> char_is_whitespace(#[trigger] blank[j]),
    ensures
        spec_tokenize(seq!['/', '/'] + body + seq!['\n'] + blank + rest, 0) == spec_tokenize(rest, 0),
{
    let c = seq!['/', '/'] + body + seq!['\n'] + blank;
    let t = c + rest;
    assert(t =~= seq!['/', '/'] + body + seq!['\n'] + blank + rest);
    assert(space_classes(t) =~= space_classes(c) + space_classes(rest));
    assert(word_classes(t) =~= word_classes(c) + word_classes(rest));
    let nl = body.len() + 2int;
    assert(c[0] == '/');
    assert(c[nl] == '\n');
    assert forall|j: int| nl <= j < c.len() implies #[trigger] space_classes(c)[j] by {
        if j > nl {
            assert(c[j] == blank[j - nl - 1]);
        }
    }
    lemma_leading_comment_classified(
        body,
        blank,
        rest,
        space_classes(c),
        word_classes(c),
        space_classes(rest),
        word_classes(rest),
    );
}

proof fn lemma_leading_comment_classified(
    body: Seq<char>,
    blank: Seq<char>,
    rest: Seq<char>,
    space: Seq<bool>,
    word: Seq<bool>,
    rest_space: Seq<bool>,
    rest_word: Seq<bool>,
)
    requires
        !body.contains('\n'),
        space.len() == body.len() + 3 + blank.len(),
        word.len() == body.len() + 3 + blank.len(),
        rest_space.len() == rest.len(),
        rest_word.len() == rest.len(),
        !space[0],
        forall|j: int| body.len() + 2 <= j < space.len() ==> #[trigger] space[j],
    ensures
        spec_tokenize_classified(
            seq!['/', '/'] + body + seq!['\n'] + blank + rest,
            space + rest_space,
            word + rest_word,
            0,
        ) == spec_tokenize_classified(rest, rest_space, rest_word, 0),
{
    let c = seq!['/', '/'] + body + seq!['\n'] + blank;
    let t = c + rest;
    assert(t =~= seq!['/', '/'] + body + seq!['\n'] + blank + rest);
    let sp = space + rest_space;
    let wd = word + rest_word;
    assert(t[0] == '/');
    assert(t[1] == '/');
    assert forall|j: int| 0 <= j < body.len() + 2 implies #[trigger] t[j] != '\n' by {
        if j >= 2 {
            assert(t[j] == body[j - 2]);
            if body[j - 2] == '\n' {
                assert(body.contains('\n'));
            }
        }
    }
    let nl = body.len() + 2int;
    assert(t[nl] == '\n');
    lemma_comment_end_to_line_break(t, nl, 0);
    assert(sp[0] == space[0]);
    assert(char_at(t, 1) == Some('/'));
    assert(lex_from(t, sp, wd, 0) == lex_from(t, sp, wd, nl));
    assert forall|j: int| nl <= j < c.len() implies #[trigger] sp[j] by {
        assert(sp[j] == space[j]);
    }
    lemma_skip_spaces(t, sp, wd, nl, c.len() as int);
    lemma_lex_from_shift(c, rest, space, rest_space, word, rest_word, 0);
}

/// Characters classed as whitespace yield no tokens.
proof fn lemma_skip_spaces(t: Seq<char>, sp: Seq<bool>, wd: Seq<bool>, k: int, end: int)
    requires
        0 <= k <= end <= t.len(),
        forall|j: int| k <= j < end ==> #[trigger] sp[j],
    ensures
        lex_from(t, sp, wd, k) == lex_from(t, sp, wd, end),
    decreases end - k,
{
    if k < end {
        lemma_skip_spaces(t, sp, wd, k + 1, end);
    }
}

/// From `k`, a comment runs to the line break at `nl` when no line break
/// comes before it.
proof fn lemma_comment_end_to_line_break(t: Seq<char>, nl: int, k: int)
    requires
        0 <= k <= nl < t.len(),
        t[nl] == '\n',
        forall|j: int| k <= j < nl ==> #[trigger] t[j] != '\n',
    ensures
        comment_end(t, k) == nl,
    decreases nl - k,
{
    if k < nl {
        lemma_comment_end_to_line_break(t, nl, k + 1);
    }
}

/// The lexer: the source text as characters, and the position reached.
pub struct Lexer {
    input: Vec<char>,
    pos: usize,
}

impl Lexer {
    /// The source text.
    pub closed spec fn text(&self) -> Seq<char> {
        self.input@
    }

    /// The position reached in the text.
    pub closed spec fn position(&self) -> nat {
        self.pos as nat
    }

    #[verifier::type_invariant]
    closed spec fn wf(&self) -> bool {
        self.pos <= self.input@.len()
    }

    /// A lexer at the start of `input`.
    pub fn new(input: &str) -> (lexer: Self)
        ensures
            lexer.text() == input@,
            lexer.position() == 0,
    {
        Lexer { input: chars_of(input), pos: 0 }
    }

    fn current_char(&self) -> (r: Option<char>)
        ensures
            r == char_at(self.text(), self.position() as int),
    {
        if self.pos < self.input.len() {
            Some(self.input[self.pos])
        } else {
            None
        }
    }

    fn peek_char(&self) -> (r: Option<char>)
        ensures
            r == char_at(self.text(), self.position() as int + 1),
    {
        proof {
            use_type_invariant(self);
        }
        if self.pos < self.input.len() && self.pos + 1 < self.input.len() {
            Some(self.input[self.pos + 1])
        } else {
            None
        }
    }

    fn advance(&mut self)
        requires
            old(self).pos < old(self).input.len(),
        ensures
            final(self).text() == old(self).text(),
            final(self).position() == old(self).position() + 1,
    {
        self.pos = self.pos + 1;
    }

    /// Tokenizes the rest of the text, with each character classed as
    /// whitespace or not by `space` and as alphanumeric or not by `word`: the
    /// tokens, each taking the longest run of characters it can, followed by
    /// `Eof`; whitespace and `//` comments are skipped. Fails at the first
    /// character that starts no token.
    pub fn try_tokenize_classified(&mut self, space: &Vec<bool>, word: &Vec<bool>) -> (r: Result<
        Vec<Token>,
        LexError,
    >)
        requires
            space@.len() == old(self).text().len(),
            word@.len() == old(self).text().len(),
        ensures
            final(self).text() == old(self).text(),
            final(self).position() <= final(self).text().len(),
            match r {
                Ok(ts) => spec_tokenize_classified(
                    old(self).text(),
                    space@,
                    word@,
                    old(self).position() as int,
                ) == Ok::<Seq<SpecToken>, LexError>(tokens_model(ts@)) && final(self).position()
                    == final(self).text().len(),
                Err(e) => spec_tokenize_classified(
                    old(self).text(),
                    space@,
                    word@,
                    old(self).position() as int,
                ) == Err::<Seq<SpecToken>, LexError>(e),
            },
    {
        proof {
            use_type_invariant(&*self);
        }
        let ghost s = self.text();
        let ghost sp = space@;
        let ghost wd = word@;
        let ghost p0 = self.position() as int;
        let mut tokens: Vec<Token> = Vec::new();
        while self.pos < self.input.len()
            invariant
                s == old(self).text(),
                p0 == old(self).position(),
                self.text() == s,
                self.position() <= s.len(),
                sp == space@,
                wd == word@,
                sp.len() == s.len(),
                wd.len() == s.len(),
                prefix_tokens(tokens_model(tokens@), lex_from(s, sp, wd, self.position() as int))
                    == lex_from(s, sp, wd, p0),
            decreases s.len() - self.position(),
        {
            proof {
                use_type_invariant(&*self);
            }
            let ghost i = self.position() as int;
            let ghost before = tokens_model(tokens@);
            let ch = self.input[self.pos];
            if space[self.pos] {
                self.advance();
                continue;
            }
            if ch == '/' && matches!(self.peek_char(), Some('/')) {
                proof {
                    lemma_comment_end(s, i);
                }
                loop
                    invariant_except_break
                        self.text() == s,
                        i <= self.position() <= s.len(),
                        comment_end(s, self.position() as int) == comment_end(s, i),
                    ensures
                        self.text() == s,
                        self.position() == comment_end(s, i),
                    decreases s.len() - self.position(),
                {
                    match self.current_char() {
                        Some(c) => {
                            if c == '\n' {
                                break;
                            }
                            self.advance();
                        },
                        None => break,
                    }
                }
                continue;
            }
            proof {
                lemma_lex_token_advances(s, wd, i);
            }
            let ghost step = lex_token(s, wd, i);
            let tok: Token;
            if ch == '=' {
                self.advance();
                tok = Token::Assign;
            } else if ch == ':' {
                self.advance();
                tok = Token::Colon;
            } else if ch == ';' {
                self.advance();
                tok = Token::Semicolon;
            } else if ch == ',' {
                self.advance();
                tok = Token::Comma;
            } else if ch == '+' {
                self.advance();
                tok = Token::Plus;
            } else if ch == '-' {
                self.advance();
                tok = Token::Minus;
            } else if ch == '*' {
                self.advance();
                tok = Token::Star;
            } else if ch == '/' {
                self.advance();
                tok = Token::Slash;
            } else if ch == '@' {
                self.advance();
                tok = Token::At;
            } else if ch == '(' {
                self.advance();
                tok = Token::LParen;
            } else if ch == ')' {
                self.advance();
                tok = Token::RParen;
            } else if ch == '[' {
                self.advance();
                tok = Token::LBracket;
            } else if ch == ']' {
                self.advance();
                tok = Token::RBracket;
            } else if ch == '|' {
                if matches!(self.peek_char(), Some('>')) {
                    self.advance();
                    self.advance();
                    tok = Token::PipeGreater;
                } else {
                    return Err(LexError::UnexpectedCharacter('|'));
                }
            } else if ch == '.' {
                let next = self.peek_char();
                if matches!(next, Some('.')) {
                    self.advance();
                    self.advance();
                    tok = Token::DotDot;
                } else if matches!(next, Some('+')) {
                    self.advance();
                    self.advance();
                    tok = Token::DotPlus;
                } else if matches!(next, Some('-')) {
                    self.advance();
                    self.advance();
                    tok = Token::DotMinus;
                } else if matches!(next, Some('*')) {
                    self.advance();
                    self.advance();
                    tok = Token::DotStar;
                } else if matches!(next, Some('/')) {
                    self.advance();
                    self.advance();
                    tok = Token::DotSlash;
                } else {
                    return Err(LexError::UnexpectedCharacter('.'));
                }
            } else if ('a' <= ch && ch <= 'z') || ('A' <= ch && ch <= 'Z') || ch == '_' {
                let mut ident: Vec<char> = Vec::new();
                ident.push(ch);
                self.advance();
                proof {
                    lemma_ident_end(s, wd, i + 1);
                }
                loop
                    invariant_except_break
                        self.text() == s,
                        0 <= i < self.position() <= s.len(),
                        ident@ == s.subrange(i, self.position() as int),
                        wd == word@,
                        wd.len() == s.len(),
                        ident_end(s, wd, self.position() as int) == ident_end(s, wd, i + 1),
                    ensures
                        self.text() == s,
                        self.position() == ident_end(s, wd, i + 1),
                        ident@ == s.subrange(i, self.position() as int),
                    decreases s.len() - self.position(),
                {
                    match self.current_char() {
                        Some(c) => {
                            if word[self.pos] || c == '_' {
                                ident.push(c);
                                self.advance();
                                assert(ident@ =~= s.subrange(i, self.position() as int));
                            } else {
                                break;
                            }
                        },
                        None => break,
                    }
                }
                if ident.len() == 3 && ident[0] == 'l' && ident[1] == 'e' && ident[2] == 't' {
                    assert(ident@ =~= seq!['l', 'e', 't']);
                    tok = Token::Let;
                } else {
                    assert(ident@ != seq!['l', 'e', 't']);
                    tok = Token::Ident(string_from_chars(&ident));
                }
            } else if '0' <= ch && ch <= '9' {
                let mut num_str: Vec<char> = Vec::new();
                let mut is_decimal = false;
                proof {
                    lemma_number_end(s, i, false);
                }
                loop
                    invariant_except_break
                        self.text() == s,
                        0 <= i <= self.position() <= s.len(),
                        num_str@ == s.subrange(i, self.position() as int),
                        number_end(s, self.position() as int, is_decimal) == number_end(
                            s,
                            i,
                            false,
                        ),
                    ensures
                        self.text() == s,
                        self.position() == number_end(s, i, false),
                        num_str@ == s.subrange(i, self.position() as int),
                    decreases s.len() - self.position(),
                {
                    match self.current_char() {
                        Some(c) => {
                            if '0' <= c && c <= '9' {
                                num_str.push(c);
                                self.advance();
                            } else if c == '.' && !matches!(self.peek_char(), Some('.'))
                                && !is_decimal {
                                is_decimal = true;
                                num_str.push(c);
                                self.advance();
                            } else {
                                break;
                            }
                            assert(num_str@ =~= s.subrange(i, self.position() as int));
                        },
                        None => break,
                    }
                }
                tok = Token::Number(string_from_chars(&num_str));
            } else {
                return Err(LexError::UnexpectedCharacter(ch));
            }
            assert(step == Ok::<(SpecToken, int), LexError>((tok@, self.position() as int)));
            tokens.push(tok);
            proof {
                assert(tokens_model(tokens@) =~= before.push(tok@));
                assert(before.push(tok@) =~= before + seq![tok@]);
                match lex_from(s, sp, wd, self.position() as int) {
                    Ok(ts) => {
                        assert(before + seq![tok@] + ts =~= before + (seq![tok@] + ts));
                    },
                    Err(_) => {},
                }
            }
        }
        let ghost acc = tokens_model(tokens@);
        assert(lex_from(s, sp, wd, self.position() as int) == Ok::<Seq<SpecToken>, LexError>(seq![]));
        tokens.push(Token::Eof);
        proof {
            assert(tokens_model(tokens@) =~= acc.push(SpecToken::Eof));
            assert(acc + seq![] =~= acc);
        }
        Ok(tokens)
    }

    /// Tokenizes the rest of the text: the tokens, each taking the longest
    /// run of characters it can, followed by `Eof`; whitespace and `//`
    /// comments are skipped, each character classed by `char::is_whitespace`
    /// and `char::is_alphanumeric`. Fails at the first character that starts
    /// no token.
    pub fn try_tokenize(&mut self) -> (r: Result<Vec<Token>, LexError>)
        ensures
            final(self).text() == old(self).text(),
            final(self).position() <= final(self).text().len(),
            match r {
                Ok(ts) => spec_tokenize(old(self).text(), old(self).position() as int) == Ok::<
                    Seq<SpecToken>,
                    LexError,
                >(tokens_model(ts@)) && final(self).position() == final(self).text().len(),
                Err(e) => spec_tokenize(old(self).text(), old(self).position() as int) == Err::<
                    Seq<SpecToken>,
                    LexError,
                >(e),
            },
    {
        let ghost s = self.text();
        let mut space: Vec<bool> = Vec::new();
        let mut word: Vec<bool> = Vec::new();
        let n = self.input.len();
        let mut k: usize = 0;
        while k < n
            invariant
                self.text() == s,
                self.position() == old(self).position(),
                n == s.len(),
                k <= n,
                space@ == space_classes(s).subrange(0, k as int),
                word@ == word_classes(s).subrange(0, k as int),
            decreases n - k,
        {
            let c = self.input[k];
            space.push(is_whitespace(c));
            word.push(is_alphanumeric(c));
            k = k + 1;
            assert(space@ =~= space_classes(s).subrange(0, k as int));
            assert(word@ =~= word_classes(s).subrange(0, k as int));
        }
        assert(space@ =~= space_classes(s));
        assert(word@ =~= word_classes(s));
        self.try_tokenize_classified(&space, &word)
    }

    /// Tokenizes the rest of the text, on text that lexes.
    pub fn tokenize(&mut self) -> (ts: Vec<Token>)
        requires
            spec_tokenize(old(self).text(), old(self).position() as int) is Ok,
        ensures
            final(self).text() == old(self).text(),
            final(self).position() == final(self).text().len(),
            spec_tokenize(old(self).text(), old(self).position() as int) == Ok::<
                Seq<SpecToken>,
                LexError,
            >(tokens_model(ts@)),
    {
        match self.try_tokenize() {
            Ok(ts) => ts,
            Err(_) => {
                proof {
                    assert(false);
                }
                Vec::new()
            }
        }
    }
}

} // verus!
