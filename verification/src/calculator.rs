use vstd::prelude::*;

use crate::chars::is_blank_char;

verus! {

/// A decimal digit character.
pub open spec fn is_digit_char(c: char) -> bool {
    c == '0' || c == '1' || c == '2' || c == '3' || c == '4' || c == '5' || c == '6' || c == '7'
        || c == '8' || c == '9'
}

/// The numeric value of a digit character (0 for any other character).
pub open spec fn digit_value(c: char) -> int {
    if c == '1' {
        1
    } else if c == '2' {
        2
    } else if c == '3' {
        3
    } else if c == '4' {
        4
    } else if c == '5' {
        5
    } else if c == '6' {
        6
    } else if c == '7' {
        7
    } else if c == '8' {
        8
    } else if c == '9' {
        9
    } else {
        0
    }
}

/// Saturates a mathematical integer into the 64-bit signed range; every
/// arithmetic step of the evaluator is clamped this way.
pub open spec fn clamp64(x: int) -> int {
    if x > i64::MAX {
        i64::MAX as int
    } else if x < i64::MIN {
        i64::MIN as int
    } else {
        x
    }
}

/// The length of the digit run starting at `i`.
pub open spec fn digits_len(s: Seq<char>, i: int) -> int
    decreases s.len() - i,
{
    if 0 <= i < s.len() && is_digit_char(s[i]) {
        1 + digits_len(s, i + 1)
    } else {
        0
    }
}

/// The digit run starting at a valid position stays within the text.
pub proof fn lemma_digits_len_bound(s: Seq<char>, i: int)
    requires
        0 <= i <= s.len(),
    ensures
        0 <= digits_len(s, i),
        i + digits_len(s, i) <= s.len(),
    decreases s.len() - i,
{
    if i < s.len() && is_digit_char(s[i]) {
        lemma_digits_len_bound(s, i + 1);
    }
}

/// A run of digits from `i` to `j`, ended by a non-digit or the end of
/// the text, is exactly what `digits_len` measures.
pub proof fn lemma_digits_run(s: Seq<char>, i: int, j: int)
    requires
        0 <= i <= j <= s.len(),
        forall|k: int| i <= k < j ==> is_digit_char(#[trigger] s[k]),
        j == s.len() || !is_digit_char(s[j]),
    ensures
        digits_len(s, i) == j - i,
    decreases j - i,
{
    if i < j {
        lemma_digits_run(s, i + 1, j);
    }
}

/// The (saturated) value of the `k` digits starting at `i`.
pub open spec fn digits_val(s: Seq<char>, i: int, k: int) -> int
    decreases k,
{
    if k <= 0 {
        0
    } else {
        clamp64(digits_val(s, i, k - 1) * 10 + digit_value(s[i + k - 1]))
    }
}

/// A parsed atom — an optionally negated digit run — with its value and
/// the position just past it; `None` when no atom starts at `i`.
pub open spec fn atom_spec(s: Seq<char>, i: int) -> Option<(int, int)> {
    if 0 <= i < s.len() && s[i] == '-' {
        if digits_len(s, i + 1) == 0 {
            None
        } else {
            Some(
                (
                    clamp64(0 - digits_val(s, i + 1, digits_len(s, i + 1))),
                    i + 1 + digits_len(s, i + 1),
                ),
            )
        }
    } else if 0 <= i && digits_len(s, i) == 0 {
        None
    } else {
        Some((digits_val(s, i, digits_len(s, i)), i + digits_len(s, i)))
    }
}

/// Left-to-right evaluation of `+`/`-` chains after a first atom worth
/// `acc`; any malformed remainder makes the whole result 0.
pub open spec fn eval_from(s: Seq<char>, i: int, acc: int) -> int
    decreases s.len() - i,
    when 0 <= i <= s.len()
    via eval_from_dec
{
    if i >= s.len() {
        acc
    } else if s[i] == '+' {
        match atom_spec(s, i + 1) {
            None => 0,
            Some(p) => eval_from(s, p.1, clamp64(acc + p.0)),
        }
    } else if s[i] == '-' {
        match atom_spec(s, i + 1) {
            None => 0,
            Some(p) => eval_from(s, p.1, clamp64(acc - p.0)),
        }
    } else {
        0
    }
}

#[via_fn]
proof fn eval_from_dec(s: Seq<char>, i: int, acc: int) {
    if 0 <= i < s.len() && (s[i] == '+' || s[i] == '-') {
        if i + 1 < s.len() && s[i + 1] == '-' {
            lemma_digits_len_bound(s, i + 2);
        } else if i + 1 <= s.len() {
            lemma_digits_len_bound(s, i + 1);
        }
    }
}

/// `s` with all blanks removed.
pub open spec fn strip_blanks(s: Seq<char>) -> Seq<char>
    decreases s.len(),
{
    if s.len() == 0 {
        s
    } else if is_blank_char(s.last()) {
        strip_blanks(s.drop_last())
    } else {
        strip_blanks(s.drop_last()).push(s.last())
    }
}

/// The value of an arithmetic expression: blanks stripped, an atom
/// followed by `+`/`-` atoms, evaluated left to right with saturating
/// 64-bit steps; a malformed expression evaluates to 0.
pub open spec fn calc_spec(expr: Seq<char>) -> int {
    match atom_spec(strip_blanks(expr), 0) {
        None => 0,
        Some(p) => eval_from(strip_blanks(expr), p.1, clamp64(p.0)),
    }
}

/// Executable test for a digit character.
pub fn digit_exec(c: char) -> (r: bool)
    ensures
        r == is_digit_char(c),
{
    c == '0' || c == '1' || c == '2' || c == '3' || c == '4' || c == '5' || c == '6' || c == '7'
        || c == '8' || c == '9'
}

/// Executable digit value.
pub fn digit_value_exec(c: char) -> (r: u32)
    ensures
        r as int == digit_value(c),
{
    if c == '1' {
        1
    } else if c == '2' {
        2
    } else if c == '3' {
        3
    } else if c == '4' {
        4
    } else if c == '5' {
        5
    } else if c == '6' {
        6
    } else if c == '7' {
        7
    } else if c == '8' {
        8
    } else if c == '9' {
        9
    } else {
        0
    }
}

/// Executable saturation into the 64-bit signed range.
fn clamp_exec(x: i128) -> (r: i64)
    ensures
        r as int == clamp64(x as int),
{
    if x > i64::MAX as i128 {
        i64::MAX
    } else if x < i64::MIN as i128 {
        i64::MIN
    } else {
        x as i64
    }
}

/// Removes all blanks from `v`.
pub fn strip_blanks_exec(v: &Vec<char>) -> (r: Vec<char>)
    ensures
        r@ == strip_blanks(v@),
{
    let mut r: Vec<char> = Vec::new();
    let mut i: usize = 0;
    proof {
        assert(v@.take(0) =~= Seq::<char>::empty());
    }
    while i < v.len()
        invariant
            i <= v@.len(),
            r@ == strip_blanks(v@.take(i as int)),
        decreases v@.len() - i,
    {
        proof {
            assert(v@.take((i + 1) as int).drop_last() =~= v@.take(i as int));
            assert(v@.take((i + 1) as int).last() == v@[i as int]);
        }
        if !(v[i] == ' ' || v[i] == '\t') {
            r.push(v[i]);
        }
        i = i + 1;
    }
    proof {
        assert(v@.take(v@.len() as int) =~= v@);
    }
    r
}

/// The length of the digit run starting at `i`.
fn digits_len_exec(v: &Vec<char>, i: usize) -> (r: usize)
    requires
        i <= v@.len(),
    ensures
        r as int == digits_len(v@, i as int),
        i + r <= v@.len(),
    decreases v@.len() - i,
{
    if i < v.len() && digit_exec(v[i]) {
        1 + digits_len_exec(v, i + 1)
    } else {
        0
    }
}

/// The saturated value of the `k` digits starting at `i`.
fn digits_val_exec(v: &Vec<char>, i: usize, k: usize) -> (r: i64)
    requires
        i + k <= v@.len(),
    ensures
        r as int == digits_val(v@, i as int, k as int),
    decreases k,
{
    let n = v.len();
    if k == 0 {
        0
    } else {
        let prev = digits_val_exec(v, i, k - 1);
        let d = digit_value_exec(v[i + k - 1]);
        clamp_exec(prev as i128 * 10 + d as i128)
    }
}

/// Parses one atom at `i`: an optionally negated digit run.
fn parse_atom(v: &Vec<char>, i: usize) -> (r: Option<(i64, usize)>)
    requires
        i <= v@.len(),
    ensures
        match r {
            None => atom_spec(v@, i as int) is None,
            Some(p) => atom_spec(v@, i as int) == Some((p.0 as int, p.1 as int)) && i < p.1
                <= v@.len(),
        },
{
    if i < v.len() && v[i] == '-' {
        let k = digits_len_exec(v, i + 1);
        if k == 0 {
            None
        } else {
            let m = digits_val_exec(v, i + 1, k);
            let r = clamp_exec(0 - m as i128);
            Some((r, i + 1 + k))
        }
    } else {
        let k = digits_len_exec(v, i);
        if k == 0 {
            None
        } else {
            let m = digits_val_exec(v, i, k);
            Some((m, i + k))
        }
    }
}

/// Evaluates an arithmetic expression, exactly as `calc_spec` states.
pub fn calculate(expr: &Vec<char>) -> (r: i64)
    ensures
        r as int == calc_spec(expr@),
{
    let s = strip_blanks_exec(expr);
    let first = parse_atom(&s, 0);
    match first {
        None => 0,
        Some((v0, n0)) => {
            let mut acc: i64 = clamp_exec(v0 as i128);
            let mut i: usize = n0;
            proof {
                assert(acc as int == clamp64(v0 as int));
            }
            loop
                invariant
                    i <= s@.len(),
                    s@ == strip_blanks(expr@),
                    eval_from(s@, i as int, acc as int) == calc_spec(expr@),
                ensures
                    acc as int == calc_spec(expr@),
                decreases s@.len() - i,
            {
                if i >= s.len() {
                    break;
                }
                let c = s[i];
                if c == '+' {
                    match parse_atom(&s, i + 1) {
                        None => {
                            return 0;
                        },
                        Some((v, n)) => {
                            acc = clamp_exec(acc as i128 + v as i128);
                            i = n;
                        },
                    }
                } else if c == '-' {
                    match parse_atom(&s, i + 1) {
                        None => {
                            return 0;
                        },
                        Some((v, n)) => {
                            acc = clamp_exec(acc as i128 - v as i128);
                            i = n;
                        },
                    }
                } else {
                    return 0;
                }
            }
            acc
        },
    }
}

} // verus!
