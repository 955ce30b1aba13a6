//! Character classes and string building blocks shared by the compiler stages.
use vstd::prelude::*;

verus! {

/// What `char::is_whitespace` returns for `c`: whether it has the Unicode
/// White_Space property, which holds of these 25 code points.
pub open spec fn char_is_whitespace(c: char) -> bool {
    ||| ('\u{9}' <= c && c <= '\u{D}')
    ||| c == '\u{20}'
    ||| c == '\u{85}'
    ||| c == '\u{A0}'
    ||| c == '\u{1680}'
    ||| ('\u{2000}' <= c && c <= '\u{200A}')
    ||| c == '\u{2028}'
    ||| c == '\u{2029}'
    ||| c == '\u{202F}'
    ||| c == '\u{205F}'
    ||| c == '\u{3000}'
}

/// What `char::is_alphanumeric` returns for a character outside ASCII that is
/// not whitespace: whether it has the Unicode Alphabetic or Numeric property.
pub uninterp spec fn unicode_alphanumeric(c: char) -> bool;

/// What `char::is_alphanumeric` returns for `c`: among ASCII characters, the
/// letters and digits; no whitespace character (White_Space characters are
/// neither Alphabetic nor Numeric); otherwise the Unicode properties.
pub open spec fn char_is_alphanumeric(c: char) -> bool {
    if c <= '\u{7F}' {
        ('a' <= c && c <= 'z') || ('A' <= c && c <= 'Z') || ('0' <= c && c <= '9')
    } else if char_is_whitespace(c) {
        false
    } else {
        unicode_alphanumeric(c)
    }
}

/// Whether `c` is whitespace, as `char::is_whitespace` classes it: the
/// Unicode White_Space property.
pub(crate) fn is_whitespace(c: char) -> (r: bool)
    ensures
        r == char_is_whitespace(c),
{
    ('\u{9}' <= c && c <= '\u{D}') || c == '\u{20}' || c == '\u{85}' || c == '\u{A0}'
        || c == '\u{1680}' || ('\u{2000}' <= c && c <= '\u{200A}') || c == '\u{2028}'
        || c == '\u{2029}' || c == '\u{202F}' || c == '\u{205F}' || c == '\u{3000}'
}

/// Calls `char::is_alphanumeric`: letters and digits among ASCII characters,
/// never a whitespace character, and the named Unicode result otherwise.
#[verifier::external_body]
pub(crate) fn is_alphanumeric(c: char) -> (r: bool)
    ensures
        r == char_is_alphanumeric(c),
        '\u{7F}' < c && !char_is_whitespace(c) ==> r == unicode_alphanumeric(c),
{
    c.is_alphanumeric()
}

/// Calls `String::push`, which appends one character.
#[verifier::external_body]
pub(crate) fn push_char(s: &mut String, c: char)
    ensures
        final(s)@ == old(s)@.push(c),
{
    s.push(c);
}

/// Whether `s` holds the text `lit`.
pub(crate) fn text_is(s: &String, lit: &str) -> (r: bool)
    ensures
        r == (s@ == lit@),
{
    let l = String::from_str(lit);
    *s == l
}

/// An ASCII decimal digit.
pub open spec fn is_digit(c: char) -> bool {
    '0' <= c && c <= '9'
}

/// A character that may start an identifier.
pub open spec fn is_ident_start(c: char) -> bool {
    ('a' <= c && c <= 'z') || ('A' <= c && c <= 'Z') || c == '_'
}

/// Builds a `String` holding exactly the given characters.
pub(crate) fn string_from_chars(chars: &Vec<char>) -> (s: String)
    ensures
        s@ == chars@,
{
    let mut s = String::new();
    let mut i: usize = 0;
    while i < chars.len()
        invariant
            i <= chars.len(),
            s@ == chars@.subrange(0, i as int),
        decreases chars.len() - i,
    {
        push_char(&mut s, chars[i]);
        i = i + 1;
        assert(s@ =~= chars@.subrange(0, i as int));
    }
    assert(chars@.subrange(0, i as int) =~= chars@);
    s
}

/// The characters of a string slice, in order.
pub(crate) fn chars_of(text: &str) -> (chars: Vec<char>)
    ensures
        chars@ == text@,
{
    let mut chars: Vec<char> = Vec::new();
    for c in it: text.chars()
        invariant
            chars@ == it.seq().take(it.index() as int),
    {
        chars.push(c);
    }
    proof {
        broadcast use vstd::string::group_string_axioms;
    }
    assert(chars@ =~= text@);
    chars
}

/// The decimal digit character for `d` (0 to 9).
pub open spec fn digit_char(d: nat) -> char {
    (48 + d) as char
}

/// The decimal text of a natural number, without leading zeros.
pub open spec fn nat_text(n: nat) -> Seq<char>
    decreases n,
{
    if n < 10 {
        seq![digit_char(n)]
    } else {
        nat_text(n / 10).push(digit_char(n % 10))
    }
}

/// The decimal text of `n`, as `format!("{}", n)` writes it.
pub(crate) fn usize_text(n: usize) -> (s: String)
    ensures
        s@ == nat_text(n as nat),
    decreases n,
{
    if n < 10 {
        let mut s = String::new();
        push_char(&mut s, ((n as u8) + 48u8) as char);
        assert(s@ =~= nat_text(n as nat));
        s
    } else {
        let mut s = usize_text(n / 10);
        push_char(&mut s, (((n % 10) as u8) + 48u8) as char);
        s
    }
}

} // verus!
