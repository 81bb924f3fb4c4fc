use vstd::prelude::*;

verus! {

/// The blank character class used by the scanner probes: space and tab.
pub open spec fn is_blank_char(c: char) -> bool {
    c == ' ' || c == '\t'
}

/// Executable test for the blank character class.
pub fn blank_char(c: char) -> (r: bool)
    ensures
        r == is_blank_char(c),
{
    c == ' ' || c == '\t'
}

/// Copies the half-open range `[a, b)` of `v` into a fresh vector.
pub fn copy_range(v: &Vec<char>, a: usize, b: usize) -> (r: Vec<char>)
    requires
        a <= b <= v@.len(),
    ensures
        r@ == v@.subrange(a as int, b as int),
{
    let mut r: Vec<char> = Vec::new();
    let mut i: usize = a;
    while i < b
        invariant
            a <= i <= b <= v@.len(),
            r@ == v@.subrange(a as int, i as int),
        decreases b - i,
    {
        r.push(v[i]);
        proof {
            assert(r@ =~= v@.subrange(a as int, (i + 1) as int));
        }
        i = i + 1;
    }
    r
}

/// Copies a whole character vector.
pub fn clone_chars(v: &Vec<char>) -> (r: Vec<char>)
    ensures
        r@ == v@,
{
    let r = copy_range(v, 0, v.len());
    proof {
        assert(v@.subrange(0, v@.len() as int) =~= v@);
    }
    r
}

/// Appends all of `src` to `dst`.
pub fn append_chars(dst: &mut Vec<char>, src: &Vec<char>)
    ensures
        final(dst)@ == old(dst)@ + src@,
{
    let mut i: usize = 0;
    while i < src.len()
        invariant
            i <= src@.len(),
            dst@ == old(dst)@ + src@.subrange(0, i as int),
        decreases src@.len() - i,
    {
        dst.push(src[i]);
        proof {
            assert(old(dst)@ + src@.subrange(0, (i + 1) as int) =~= (old(dst)@ + src@.subrange(
                0,
                i as int,
            )).push(src@[i as int]));
        }
        i = i + 1;
    }
    proof {
        assert(src@.subrange(0, src@.len() as int) =~= src@);
    }
}

/// Compares two character vectors for equal contents.
pub fn chars_eq(a: &Vec<char>, b: &Vec<char>) -> (r: bool)
    ensures
        r == (a@ == b@),
{
    if a.len() != b.len() {
        return false;
    }
    let mut i: usize = 0;
    while i < a.len()
        invariant
            a@.len() == b@.len(),
            i <= a@.len(),
            forall|j: int| 0 <= j < i ==> a@[j] == b@[j],
        decreases a@.len() - i,
    {
        if a[i] != b[i] {
            return false;
        }
        i = i + 1;
    }
    proof {
        assert(a@ =~= b@);
    }
    true
}

/// The length of the run of characters at or after `i` that are not in
/// `stops`: the distance to the first stop character, or to the end.
pub open spec fn seek(s: Seq<char>, i: int, stops: Seq<char>) -> int
    decreases s.len() - i,
{
    if 0 <= i < s.len() && !stops.contains(s[i]) {
        1 + seek(s, i + 1, stops)
    } else {
        0
    }
}

/// The seek run stays within the text.
pub proof fn lemma_seek_bound(s: Seq<char>, i: int, stops: Seq<char>)
    requires
        0 <= i <= s.len(),
    ensures
        0 <= seek(s, i, stops),
        i + seek(s, i, stops) <= s.len(),
    decreases s.len() - i,
{
    if i < s.len() && !stops.contains(s[i]) {
        lemma_seek_bound(s, i + 1, stops);
    }
}

/// A run free of stop characters from `i` to `j`, ended by a stop or by
/// the end of the text, is exactly what `seek` measures.
pub proof fn lemma_seek_run(s: Seq<char>, i: int, j: int, stops: Seq<char>)
    requires
        0 <= i <= j <= s.len(),
        forall|k: int| i <= k < j ==> !stops.contains(#[trigger] s[k]),
        j == s.len() || stops.contains(s[j]),
    ensures
        seek(s, i, stops) == j - i,
    decreases j - i,
{
    if i < j {
        lemma_seek_run(s, i + 1, j, stops);
    }
}

/// The length of the blank run (spaces and tabs) at or after `i`.
pub open spec fn blank_run(s: Seq<char>, i: int) -> int
    decreases s.len() - i,
{
    if 0 <= i < s.len() && is_blank_char(s[i]) {
        1 + blank_run(s, i + 1)
    } else {
        0
    }
}

/// A run of blanks from `i` to `j`, ended by a non-blank or the end of
/// the text, is exactly what `blank_run` measures.
pub proof fn lemma_blank_run(s: Seq<char>, i: int, j: int)
    requires
        0 <= i <= j <= s.len(),
        forall|k: int| i <= k < j ==> is_blank_char(#[trigger] s[k]),
        j == s.len() || !is_blank_char(s[j]),
    ensures
        blank_run(s, i) == j - i,
    decreases j - i,
{
    if i < j {
        lemma_blank_run(s, i + 1, j);
    }
}

/// Whether `c` occurs in `v`.
pub fn contains_char(v: &Vec<char>, c: char) -> (r: bool)
    ensures
        r == v@.contains(c),
{
    let mut i: usize = 0;
    while i < v.len()
        invariant
            i <= v@.len(),
            forall|j: int| 0 <= j < i ==> v@[j] != c,
        decreases v@.len() - i,
    {
        if v[i] == c {
            return true;
        }
        i = i + 1;
    }
    false
}

} // verus!