use vstd::prelude::*;

use crate::calculator::{digit_exec, digit_value, digit_value_exec, digits_len, is_digit_char, lemma_digits_run};
use crate::chars::{blank_run, is_blank_char, lemma_blank_run};
use crate::feeder::{lemma_consume_total, Feeder};

verus! {

/// The direction of a redirect.
#[derive(Clone, Copy, Debug, PartialEq, Eq, Structural)]
pub enum RedirKind {
    /// `<`: open the target for reading.
    Input,
    /// `>`: open the target for writing, truncating.
    Output,
    /// `>>`: open the target for appending.
    Append,
}

/// One redirection attached to a command: the target file descriptor,
/// the direction, and the path word. Redirects are applied in
/// declaration order, so a later redirect targeting the same descriptor
/// wins.
pub struct Redirect {
    pub fd: u32,
    pub kind: RedirKind,
    pub target: Vec<char>,
    pub text: Vec<char>,
}

/// The saturated numeric value of the `k` digits starting at `i`.
pub open spec fn fd_val(s: Seq<char>, i: int, k: int) -> int
    decreases k,
{
    if k <= 0 {
        0
    } else if fd_val(s, i, k - 1) * 10 + digit_value(s[i + k - 1]) > u32::MAX {
        u32::MAX as int
    } else {
        fd_val(s, i, k - 1) * 10 + digit_value(s[i + k - 1])
    }
}

/// Executable saturated value of a digit run.
fn fd_val_exec(v: &Vec<char>, i: usize, k: usize) -> (r: u32)
    requires
        i + k <= v@.len(),
    ensures
        r as int == fd_val(v@, i as int, k as int),
    decreases k,
{
    let n = v.len();
    if k == 0 {
        0
    } else {
        let prev = fd_val_exec(v, i, k - 1);
        let d = digit_value_exec(v[i + k - 1]);
        let wide: u64 = prev as u64 * 10 + d as u64;
        if wide > u32::MAX as u64 {
            u32::MAX
        } else {
            wide as u32
        }
    }
}

/// The redirect that ends up governing descriptor `fd` after applying
/// `rs` in declaration order: the last one that targets `fd`.
pub open spec fn winning_redirect(rs: Seq<Redirect>, fd: u32) -> Option<Redirect>
    decreases rs.len(),
{
    if rs.len() == 0 {
        None
    } else if rs.last().fd == fd {
        Some(rs.last())
    } else {
        winning_redirect(rs.drop_last(), fd)
    }
}

/// The descriptor assignment that results from applying redirects one by
/// one, in order, each overriding the previous owner of its descriptor.
pub open spec fn apply_redirects(m: Map<u32, Redirect>, rs: Seq<Redirect>) -> Map<u32, Redirect>
    decreases rs.len(),
{
    if rs.len() == 0 {
        m
    } else {
        apply_redirects(m, rs.drop_last()).insert(rs.last().fd, rs.last())
    }
}

/// Ordered override: after applying a redirect list in declaration
/// order, each descriptor is governed by the last redirect that targets
/// it, and a descriptor no redirect targets keeps its prior state.
pub proof fn lemma_redirect_last_wins(m: Map<u32, Redirect>, rs: Seq<Redirect>, fd: u32)
    ensures
        match winning_redirect(rs, fd) {
            Some(r) => apply_redirects(m, rs).contains_key(fd) && apply_redirects(m, rs)[fd] == r,
            None => {
                &&& (m.contains_key(fd) ==> apply_redirects(m, rs).contains_key(fd)
                    && apply_redirects(m, rs)[fd] == m[fd])
                &&& (!m.contains_key(fd) ==> !apply_redirects(m, rs).contains_key(fd))
            },
        },
    decreases rs.len(),
{
    if rs.len() > 0 {
        lemma_redirect_last_wins(m, rs.drop_last(), fd);
    }
}

/// The characters that end a redirect's target word.
pub open spec fn target_stops() -> Seq<char> {
    seq!['|', '&', ';', ')', '(', '<', '>', '\n', ' ', '\t']
}

/// Whether a nonempty target word follows the (possibly empty) blank
/// run at the head of `s`.
pub open spec fn word_present(s: Seq<char>) -> bool {
    blank_run(s, 0) < s.len() && !target_stops().contains(s[blank_run(s, 0)])
}

/// Whether a redirect starts at the head of `s`: an optional descriptor
/// number, one of `<`, `>` or `>>`, optional blanks, and a nonempty
/// target word.
pub open spec fn redirect_matches(s: Seq<char>) -> bool {
    let d = digits_len(s, 0);
    &&& d < s.len()
    &&& (s[d] == '<' || s[d] == '>')
    &&& word_present(s.skip(d).skip(op_len(s.skip(d))))
}

/// Builds the target-word stop set as a vector.
fn target_stops_vec() -> (r: Vec<char>)
    ensures
        r@ == target_stops(),
{
    let mut p: Vec<char> = Vec::new();
    p.push('|');
    p.push('&');
    p.push(';');
    p.push(')');
    p.push('(');
    p.push('<');
    p.push('>');
    p.push('\n');
    p.push(' ');
    p.push('\t');
    proof {
        assert(p@ =~= target_stops());
    }
    p
}

/// The length of the redirect operator at the head of `s`: 2 for `>>`,
/// otherwise 1.
pub open spec fn op_len(s: Seq<char>) -> int {
    if s.len() >= 2 && s[0] == '>' && s[1] == '>' {
        2
    } else {
        1
    }
}

/// Consumes the (possibly empty) descriptor-number digit run at the
/// head of the buffer and returns its text and saturated value.
fn eat_fd_number(feeder: &mut Feeder) -> (r: (Vec<char>, u32))
    ensures
        r.0@ == old(feeder).buf().take(digits_len(old(feeder).buf(), 0)),
        r.1 as int == fd_val(r.0@, 0, r.0@.len() as int),
        final(feeder).buf() == old(feeder).buf().skip(digits_len(old(feeder).buf(), 0)),
        final(feeder).same_except_buf(old(feeder)),
{
    let ghost s0 = feeder.buf();
    let n = feeder.len();
    let mut ndig: usize = 0;
    while ndig < n && digit_exec(feeder.remaining[ndig])
        invariant
            ndig <= n,
            n == feeder.buf().len(),
            feeder.buf() == s0,
            forall|k: int| 0 <= k < ndig ==> is_digit_char(#[trigger] s0[k]),
        decreases n - ndig,
    {
        ndig = ndig + 1;
    }
    proof {
        lemma_digits_run(s0, 0, ndig as int);
    }
    let numtext = feeder.consume(ndig);
    let fd_num = fd_val_exec(&numtext, 0, numtext.len());
    (numtext, fd_num)
}

/// Consumes the redirect operator at the head of the buffer, or leaves
/// it untouched when none is present.
fn eat_op(feeder: &mut Feeder) -> (r: Option<(RedirKind, Vec<char>)>)
    ensures
        match r {
            Some(p) => {
                &&& old(feeder).buf().len() > 0
                &&& (old(feeder).buf()[0] == '<' || old(feeder).buf()[0] == '>')
                &&& p.1@ == old(feeder).buf().take(op_len(old(feeder).buf()))
                &&& final(feeder).buf() == old(feeder).buf().skip(op_len(old(feeder).buf()))
                &&& final(feeder).same_except_buf(old(feeder))
            },
            None => final(feeder).same_state(old(feeder)) && (old(feeder).buf().len() == 0 || (
            old(feeder).buf()[0] != '<' && old(feeder).buf()[0] != '>')),
        },
{
    let two_gt = {
        let mut p: Vec<char> = Vec::new();
        p.push('>');
        p.push('>');
        p
    };
    if feeder.starts_with(&two_gt) {
        proof {
            assert(two_gt@.len() == 2 && two_gt@[0] == '>' && two_gt@[1] == '>');
            assert(feeder.buf()[0] == '>' && feeder.buf()[1] == '>');
        }
        let op = feeder.consume(2);
        Some((RedirKind::Append, op))
    } else {
        proof {
            if feeder.buf().len() >= 2 && feeder.buf()[0] == '>' && feeder.buf()[1] == '>' {
                assert(two_gt@ =~= feeder.buf().take(2));
            }
        }
        match feeder.nth(0) {
            Some('>') => {
                let op = feeder.consume(1);
                Some((RedirKind::Output, op))
            },
            Some('<') => {
                let op = feeder.consume(1);
                Some((RedirKind::Input, op))
            },
            _ => None,
        }
    }
}

/// Consumes the blank run and the target word at the head of the
/// buffer, or leaves it untouched when no word is present.
fn eat_target(feeder: &mut Feeder) -> (r: Option<(Vec<char>, Vec<char>)>)
    ensures
        (r is Some) == word_present(old(feeder).buf()),
        match r {
            Some(p) => {
                &&& p.0@ + p.1@ + final(feeder).buf() == old(feeder).buf()
                &&& p.1@.len() > 0
                &&& final(feeder).same_except_buf(old(feeder))
            },
            None => final(feeder).same_state(old(feeder)),
        },
{
    let ghost s0 = feeder.buf();
    let backup = feeder.snapshot();
    let blanks = feeder.consume_blank();
    proof {
        assert forall|k: int| 0 <= k < blanks@.len() implies is_blank_char(
            #[trigger] s0[k],
        ) by {
            assert(blanks@[k] == s0[k]);
        }
        assert(blanks@.len() < s0.len() ==> !is_blank_char(s0[blanks@.len() as int])) by {
            if feeder.buf().len() > 0 {
                assert(feeder.buf()[0] == s0[blanks@.len() as int]);
            }
        }
        lemma_blank_run(s0, 0, blanks@.len() as int);
    }
    let stops = target_stops_vec();
    let wlen = feeder.scanner_until(0, &stops);
    if wlen == 0 {
        proof {
            assert(!word_present(s0));
        }
        feeder.rewind(backup);
        return None;
    }
    proof {
        assert(feeder.buf()[0] == s0[blanks@.len() as int]);
        assert(word_present(s0));
    }
    let target = feeder.consume(wlen);
    proof {
        assert(blanks@ + target@ + feeder.buf() =~= s0);
    }
    Some((blanks, target))
}

impl Redirect {
    /// Parses one redirect: an optional descriptor number, one of `<`,
    /// `>` or `>>`, optional blanks, and a target word. On failure the
    /// feeder is left exactly as it was.
    pub fn parse(feeder: &mut Feeder) -> (r: Option<Redirect>)
        ensures
            (r is Some) == redirect_matches(old(feeder).buf()),
            match r {
                Some(rd) => {
                    &&& rd.text@ + final(feeder).total() == old(feeder).total()
                    &&& rd.text@.len() > 0
                    &&& final(feeder).src() == old(feeder).src()
                    &&& final(feeder).feed_stop == old(feeder).feed_stop
                },
                None => final(feeder).same_state(old(feeder)),
            },
    {
        let ghost s0 = feeder.buf();
        let backup = feeder.snapshot();
        let mut text: Vec<char> = Vec::new();

        let (numtext, fd_num) = eat_fd_number(feeder);
        let explicit_fd = numtext.len() > 0;
        let ghost d = digits_len(s0, 0);
        proof {
            crate::calculator::lemma_digits_len_bound(s0, 0);
        }
        crate::chars::append_chars(&mut text, &numtext);
        proof {
            assert(text@ + feeder.buf() =~= s0);
        }
        let ghost buf1 = feeder.buf();

        let kind: RedirKind;
        match eat_op(feeder) {
            Some((k, optext)) => {
                kind = k;
                proof {
                    assert(buf1[0] == s0[d]);
                }
                crate::chars::append_chars(&mut text, &optext);
                proof {
                    assert(text@ + feeder.buf() =~= s0);
                }
            },
            None => {
                proof {
                    assert(!redirect_matches(s0)) by {
                        if d < s0.len() {
                            assert(buf1[0] == s0[d]);
                        }
                    }
                }
                feeder.rewind(backup);
                return None;
            },
        }
        let ghost buf2 = feeder.buf();

        match eat_target(feeder) {
            Some((blanks, target)) => {
                proof {
                    assert(word_present(buf2));
                    assert(redirect_matches(s0));
                }
                crate::chars::append_chars(&mut text, &blanks);
                crate::chars::append_chars(&mut text, &target);
                let fd = if explicit_fd {
                    fd_num
                } else if matches!(kind, RedirKind::Input) {
                    0
                } else {
                    1
                };
                proof {
                    assert(text@ + feeder.buf() =~= s0);
                    lemma_consume_total(*old(feeder), *feeder, text@);
                }
                Some(Redirect { fd, kind, target, text })
            },
            None => {
                proof {
                    assert(!redirect_matches(s0));
                }
                feeder.rewind(backup);
                None
            },
        }
    }
}

} // verus!
