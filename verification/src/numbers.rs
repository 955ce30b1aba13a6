//! Number literals: the count they stand for, and the text the generated C
//! code writes for them.
use vstd::prelude::*;
use crate::chars::{chars_of, is_digit, string_from_chars};

verus! {

/// The end of the run of decimal digits that starts at `k`.
pub open spec fn digits_end(t: Seq<char>, k: int) -> int
    decreases t.len() - k,
{
    if 0 <= k < t.len() && is_digit(t[k]) {
        digits_end(t, k + 1)
    } else {
        k
    }
}

/// The value of the digits `t[0..k]`, read in base ten.
pub open spec fn digits_value(t: Seq<char>, k: int) -> nat
    decreases k,
{
    if k <= 0 {
        0
    } else {
        digits_value(t, k - 1) * 10 + (t[k - 1] as nat - 48) as nat
    }
}

/// The count a literal stands for where a whole number is wanted (a slice
/// bound, a matrix size): the value of its leading digits, as a cast from a
/// number to `usize` gives it: zero for a negative literal, and `usize::MAX`
/// for a value that does not fit.
pub open spec fn literal_count(t: Seq<char>) -> usize {
    if t.len() > 0 && t[0] == '-' {
        0
    } else {
        let v = digits_value(t, digits_end(t, 0));
        if v > usize::MAX {
            usize::MAX
        } else {
            v as usize
        }
    }
}

pub proof fn lemma_digits_end(t: Seq<char>, k: int)
    requires
        0 <= k <= t.len(),
    ensures
        k <= digits_end(t, k) <= t.len(),
        forall|j: int| k <= j < digits_end(t, k) ==> is_digit(#[trigger] t[j]),
    decreases t.len() - k,
{
    if k < t.len() && is_digit(t[k]) {
        lemma_digits_end(t, k + 1);
    }
}

proof fn lemma_fits_step(v: nat, d: nat)
    requires
        d < 10,
        v <= (usize::MAX - d) / 10,
    ensures
        v * 10 + d <= usize::MAX,
{
    assert(v * 10 + d <= usize::MAX) by (nonlinear_arith)
        requires
            d < 10,
            v <= (usize::MAX - d) / 10,
    ;
}

proof fn lemma_digits_value_monotone(t: Seq<char>, k: int, m: int)
    requires
        0 <= k <= m <= t.len(),
        forall|j: int| 0 <= j < m ==> is_digit(#[trigger] t[j]),
    ensures
        digits_value(t, k) <= digits_value(t, m),
    decreases m - k,
{
    if k < m {
        lemma_digits_value_monotone(t, k, m - 1);
        assert(is_digit(t[m - 1]));
    }
}

/// The count a number literal stands for (see `literal_count`).
pub fn literal_to_usize(text: &String) -> (n: usize)
    ensures
        n == literal_count(text@),
{
    let t = chars_of(text.as_str());
    let ghost s = t@;
    if t.len() > 0 && t[0] == '-' {
        return 0;
    }
    proof {
        lemma_digits_end(s, 0);
    }
    let mut acc: usize = 0;
    let mut i: usize = 0;
    while i < t.len() && '0' <= t[i] && t[i] <= '9'
        invariant
            s == t@,
            0 <= i <= digits_end(s, 0) <= s.len(),
            digits_end(s, i as int) == digits_end(s, 0),
            forall|j: int| 0 <= j < i ==> is_digit(#[trigger] s[j]),
            acc == (if digits_value(s, i as int) > usize::MAX {
                usize::MAX as nat
            } else {
                digits_value(s, i as int)
            }),
        decreases t.len() - i,
    {
        proof {
            lemma_digits_end(s, i + 1);
        }
        let d = (t[i] as u32 - 48) as usize;
        let ghost v = digits_value(s, i as int);
        assert(digits_value(s, i + 1) == v * 10 + d);
        if acc == usize::MAX {
            assert(v >= usize::MAX);
            assert(v * 10 + d >= v) by (nonlinear_arith);
        } else if acc > (usize::MAX - d) / 10 {
            assert(v == acc);
            assert(v * 10 + d > usize::MAX) by (nonlinear_arith)
                requires
                    v > (usize::MAX - d) / 10,
                    d < 10,
            ;
            acc = usize::MAX;
        } else {
            assert(v == acc);
            proof {
                lemma_fits_step(v, d as nat);
            }
            acc = acc * 10 + d;
        }
        i = i + 1;
    }
    assert(i == digits_end(s, 0));
    acc
}

/// The index of the first `c` at or after `k`, or the length.
pub open spec fn find_char(t: Seq<char>, k: int, c: char) -> int
    decreases t.len() - k,
{
    if 0 <= k < t.len() && t[k] != c {
        find_char(t, k + 1, c)
    } else {
        k
    }
}

/// The first index in `k..end` that does not hold `'0'`, or `end`.
pub open spec fn skip_zeros(t: Seq<char>, k: int, end: int) -> int
    decreases end - k,
{
    if k < end && t[k] == '0' {
        skip_zeros(t, k + 1, end)
    } else {
        k
    }
}

/// The end of `start..k` once trailing `'0'`s are dropped.
pub open spec fn trim_zeros(t: Seq<char>, start: int, k: int) -> int
    decreases k - start,
{
    if start < k && t[k - 1] == '0' {
        trim_zeros(t, start, k - 1)
    } else {
        k
    }
}

/// The shortest text of an unsigned decimal literal: no leading zeros in
/// the whole part (but at least one digit), no trailing zeros in the
/// fraction, and no `.` when the fraction is zero.
pub open spec fn unsigned_number_text(u: Seq<char>) -> Seq<char> {
    let dot = find_char(u, 0, '.');
    let int_start = skip_zeros(u, 0, dot);
    let whole = if int_start == dot {
        seq!['0']
    } else {
        u.subrange(int_start, dot)
    };
    let frac_end = if dot < u.len() {
        trim_zeros(u, dot + 1, u.len() as int)
    } else {
        dot
    };
    if dot < u.len() && dot + 1 < frac_end {
        whole + seq!['.'] + u.subrange(dot + 1, frac_end)
    } else {
        whole
    }
}

/// The text written for a number literal in generated code: the shortest
/// decimal text of its value, with its sign.
pub open spec fn number_text(t: Seq<char>) -> Seq<char> {
    if t.len() > 0 && t[0] == '-' {
        seq!['-'] + unsigned_number_text(t.subrange(1, t.len() as int))
    } else {
        unsigned_number_text(t)
    }
}

proof fn lemma_find_char(t: Seq<char>, k: int, c: char)
    requires
        0 <= k <= t.len(),
    ensures
        k <= find_char(t, k, c) <= t.len(),
        find_char(t, k, c) < t.len() ==> t[find_char(t, k, c)] == c,
    decreases t.len() - k,
{
    if k < t.len() && t[k] != c {
        lemma_find_char(t, k + 1, c);
    }
}

proof fn lemma_skip_zeros(t: Seq<char>, k: int, end: int)
    requires
        k <= end,
    ensures
        k <= skip_zeros(t, k, end) <= end,
    decreases end - k,
{
    if k < end && t[k] == '0' {
        lemma_skip_zeros(t, k + 1, end);
    }
}

proof fn lemma_trim_zeros(t: Seq<char>, start: int, k: int)
    requires
        start <= k,
    ensures
        start <= trim_zeros(t, start, k) <= k,
    decreases k - start,
{
    if start < k && t[k - 1] == '0' {
        lemma_trim_zeros(t, start, k - 1);
    }
}

/// Appends `t[from..to]` to `out`.
fn push_range(out: &mut Vec<char>, t: &Vec<char>, from: usize, to: usize)
    requires
        from <= to <= t@.len(),
    ensures
        final(out)@ == old(out)@ + t@.subrange(from as int, to as int),
{
    let mut i = from;
    while i < to
        invariant
            from <= i <= to <= t@.len(),
            out@ == old(out)@ + t@.subrange(from as int, i as int),
        decreases to - i,
    {
        out.push(t[i]);
        i = i + 1;
        assert(out@ =~= old(out)@ + t@.subrange(from as int, i as int));
    }
}

/// The text of an unsigned literal `t[from..]` (see `unsigned_number_text`).
fn unsigned_text(out: &mut Vec<char>, t: &Vec<char>, from: usize)
    requires
        from <= t@.len(),
    ensures
        final(out)@ == old(out)@ + unsigned_number_text(t@.subrange(from as int, t@.len() as int)),
{
    let ghost u = t@.subrange(from as int, t@.len() as int);
    let len = t.len();
    let mut dot = from;
    while dot < len && t[dot] != '.'
        invariant
            from <= dot <= len == t@.len(),
            u == t@.subrange(from as int, len as int),
            find_char(u, dot - from, '.') == find_char(u, 0, '.'),
        decreases len - dot,
    {
        dot = dot + 1;
    }
    proof {
        lemma_find_char(u, 0, '.');
    }
    assert(dot - from == find_char(u, 0, '.'));
    let mut int_start = from;
    while int_start < dot && t[int_start] == '0'
        invariant
            from <= int_start <= dot <= len == t@.len(),
            u == t@.subrange(from as int, len as int),
            skip_zeros(u, int_start - from, dot - from) == skip_zeros(u, 0, dot - from),
        decreases dot - int_start,
    {
        int_start = int_start + 1;
    }
    if int_start == dot {
        out.push('0');
    } else {
        push_range(out, t, int_start, dot);
        assert(t@.subrange(int_start as int, dot as int) =~= u.subrange(
            int_start - from,
            dot - from,
        ));
    }
    let ghost whole_out = out@;
    if dot < len {
        let mut frac_end = len;
        while frac_end > dot + 1 && t[frac_end - 1] == '0'
            invariant
                from <= dot < frac_end <= len == t@.len(),
                u == t@.subrange(from as int, len as int),
                trim_zeros(u, dot - from + 1, frac_end - from) == trim_zeros(
                    u,
                    dot - from + 1,
                    len - from,
                ),
            decreases frac_end,
        {
            frac_end = frac_end - 1;
        }
        if dot + 1 < frac_end {
            out.push('.');
            push_range(out, t, dot + 1, frac_end);
            assert(t@.subrange(dot + 1, frac_end as int) =~= u.subrange(
                dot - from + 1,
                frac_end - from,
            ));
        }
    }
    assert(out@ =~= old(out)@ + unsigned_number_text(u));
}

/// The text written for a number literal in generated code (see `number_text`).
pub fn number_to_text(text: &String) -> (s: String)
    ensures
        s@ == number_text(text@),
{
    let t = chars_of(text.as_str());
    let mut out: Vec<char> = Vec::new();
    if t.len() > 0 && t[0] == '-' {
        out.push('-');
        unsigned_text(&mut out, &t, 1);
    } else {
        unsigned_text(&mut out, &t, 0);
        assert(t@.subrange(0, t@.len() as int) =~= t@);
    }
    assert(out@ =~= number_text(t@));
    string_from_chars(&out)
}

} // verus!
