use vstd::prelude::*;

use crate::calculator::is_digit_char;
use crate::chars::{append_chars, blank_run, is_blank_char, lemma_blank_run, lemma_seek_run, seek};
use crate::feeder::{lemma_consume_total, Feeder};
use crate::shell::ShellCore;

verus! {

/// A character of a function name: letters, digits and underscore.
pub open spec fn is_name_char(c: char) -> bool {
    c == '_' || ('a' <= c && c <= 'z') || ('A' <= c && c <= 'Z') || is_digit_char(c)
}

/// Executable test for a name character.
pub fn name_char(c: char) -> (r: bool)
    ensures
        r == is_name_char(c),
{
    c == '_' || (c >= 'a' && c <= 'z') || (c >= 'A' && c <= 'Z') || crate::calculator::digit_exec(
        c,
    )
}

/// The length of the name run at or after `i`.
pub open spec fn name_run(s: Seq<char>, i: int) -> int
    decreases s.len() - i,
{
    if 0 <= i < s.len() && is_name_char(s[i]) {
        1 + name_run(s, i + 1)
    } else {
        0
    }
}

/// The name run stays within the text.
proof fn lemma_name_run_bound(s: Seq<char>, i: int)
    requires
        0 <= i <= s.len(),
    ensures
        0 <= name_run(s, i),
        i + name_run(s, i) <= s.len(),
    decreases s.len() - i,
{
    if i < s.len() && is_name_char(s[i]) {
        lemma_name_run_bound(s, i + 1);
    }
}

/// A run of name characters from `i` to `j`, ended by a non-name
/// character or the end of the text, is exactly what `name_run`
/// measures.
pub proof fn lemma_name_run(s: Seq<char>, i: int, j: int)
    requires
        0 <= i <= j <= s.len(),
        forall|k: int| i <= k < j ==> is_name_char(#[trigger] s[k]),
        j == s.len() || !is_name_char(s[j]),
    ensures
        name_run(s, i) == j - i,
    decreases j - i,
{
    if i < j {
        lemma_name_run(s, i + 1, j);
    }
}

/// Whether `t` begins with the empty parameter list `()`.
pub open spec fn opens_parens(t: Seq<char>) -> bool {
    t.len() >= 2 && t[0] == '(' && t[1] == ')'
}

/// Whether `t` begins with optional blanks, an opening brace, and a
/// body that reaches a closing brace.
pub open spec fn brace_body(t: Seq<char>) -> bool {
    &&& blank_run(t, 0) < t.len()
    &&& t[blank_run(t, 0)] == '{'
    &&& seek(t.skip(blank_run(t, 0) + 1), 0, seq!['}']) < t.skip(blank_run(t, 0) + 1).len()
}

/// Whether a function definition stands at the head of `s`: a name,
/// `()`, optional blanks, and a brace-enclosed body.
pub open spec fn fn_def_matches(s: Seq<char>) -> bool {
    &&& name_run(s, 0) > 0
    &&& opens_parens(s.skip(name_run(s, 0)))
    &&& brace_body(s.skip(name_run(s, 0)).skip(2))
}

/// A user function definition: its name, the body between the braces,
/// and the full recorded source text. Definitions register into the
/// function mapping at parse time.
pub struct Function {
    pub name: Vec<char>,
    pub body: Vec<char>,
    pub text: Vec<char>,
}

/// Consumes the name run at the head of the buffer.
fn eat_name(feeder: &mut Feeder) -> (r: Vec<char>)
    ensures
        r@ == old(feeder).buf().take(name_run(old(feeder).buf(), 0)),
        final(feeder).buf() == old(feeder).buf().skip(name_run(old(feeder).buf(), 0)),
        final(feeder).same_except_buf(old(feeder)),
{
    let ghost s0 = feeder.buf();
    let n = feeder.len();
    let mut k: usize = 0;
    while k < n && name_char(feeder.remaining[k])
        invariant
            k <= n,
            n == feeder.buf().len(),
            feeder.buf() == s0,
            forall|j: int| 0 <= j < k ==> is_name_char(#[trigger] s0[j]),
        decreases n - k,
    {
        k = k + 1;
    }
    proof {
        lemma_name_run(s0, 0, k as int);
    }
    feeder.consume(k)
}

/// Consumes the blank run and the brace-enclosed body at the head of
/// the buffer, or leaves it untouched when none is there.
fn eat_body(feeder: &mut Feeder) -> (r: Option<(Vec<char>, Vec<char>)>)
    ensures
        (r is Some) == brace_body(old(feeder).buf()),
        match r {
            Some(p) => {
                &&& p.0@ + seq!['{'] + p.1@ + seq!['}'] + final(feeder).buf() == old(
                    feeder,
                ).buf()
                &&& forall|i: int| 0 <= i < p.0@.len() ==> is_blank_char(#[trigger] p.0@[i])
                &&& forall|i: int| 0 <= i < p.1@.len() ==> p.1@[i] != '}'
                &&& final(feeder).same_except_buf(old(feeder))
            },
            None => final(feeder).same_state(old(feeder)),
        },
{
    let ghost s0 = feeder.buf();
    let backup = feeder.snapshot();
    let blanks = feeder.consume_blank();
    proof {
        assert forall|k: int| 0 <= k < blanks@.len() implies is_blank_char(
            #[trigger] s0[k],
        ) by {
            assert(blanks@[k] == s0[k]);
        }
        assert(blanks@.len() < s0.len() ==> !is_blank_char(s0[blanks@.len() as int])) by {
            if feeder.buf().len() > 0 {
                assert(feeder.buf()[0] == s0[blanks@.len() as int]);
            }
        }
        lemma_blank_run(s0, 0, blanks@.len() as int);
    }
    if !matches!(feeder.nth(0), Some('{')) {
        proof {
            assert(!brace_body(s0)) by {
                if blank_run(s0, 0) < s0.len() {
                    assert(feeder.buf()[0] == s0[blank_run(s0, 0)]);
                }
            }
        }
        feeder.rewind(backup);
        return None;
    }
    let brace = feeder.consume(1);
    let ghost t1 = feeder.buf();
    let close = {
        let mut p: Vec<char> = Vec::new();
        p.push('}');
        p
    };
    let blen = feeder.scanner_until(0, &close);
    if blen == feeder.len() {
        proof {
            assert(!brace_body(s0)) by {
                assert(t1 =~= s0.skip(blank_run(s0, 0) + 1));
                assert(seq!['}'].contains('}')) by {
                    assert(seq!['}'][0] == '}');
                }
                assert forall|k: int| 0 <= k < t1.len() implies t1[k] != '}' by {
                    assert(!close@.contains(t1[k]));
                }
                lemma_seek_run(t1, 0, t1.len() as int, seq!['}']);
            }
        }
        feeder.rewind(backup);
        return None;
    }
    let body = feeder.consume(blen);
    let shut = feeder.consume(1);
    proof {
        assert(t1 =~= s0.skip(blank_run(s0, 0) + 1));
        assert(seq!['}'].contains('}')) by {
            assert(seq!['}'][0] == '}');
        }
        assert forall|k: int| 0 <= k < body@.len() implies body@[k] != '}' by {
            assert(body@[k] == t1[k]);
            assert(!close@.contains(t1[k]));
        }
        lemma_seek_run(t1, 0, body@.len() as int, seq!['}']);
        assert(brace_body(s0));
        assert(brace@ =~= seq!['{']);
        assert(shut@ =~= seq!['}']);
        assert(blanks@ + seq!['{'] + body@ + seq!['}'] + feeder.buf() =~= s0);
    }
    Some((blanks, body))
}

impl Function {
    /// Parses a function definition `name() { body }` (the body running
    /// to the next closing brace) and registers it into the function
    /// mapping. On failure the feeder and the shared state are left
    /// exactly as they were.
    pub fn parse(feeder: &mut Feeder, core: &mut ShellCore) -> (r: Option<Function>)
        ensures
            (r is Some) == fn_def_matches(old(feeder).buf()),
            match r {
                Some(f) => {
                    &&& f.name@ == old(feeder).buf().take(name_run(old(feeder).buf(), 0))
                    &&& f.name@.len() > 0
                    &&& f.text@ + final(feeder).total() == old(feeder).total()
                    &&& f.text@.len() > 0
                    &&& final(feeder).src() == old(feeder).src()
                    &&& final(feeder).feed_stop == old(feeder).feed_stop
                    &&& crate::shell::lookup(final(core).functions@, f.name@) == f.body@
                    &&& old(core).functions@.len() <= final(core).functions@.len()
                    &&& forall|m: Seq<char>|
                        m != f.name@ ==> #[trigger] crate::shell::lookup(
                            final(core).functions@,
                            m,
                        ) == crate::shell::lookup(old(core).functions@, m)
                    &&& final(core).vars@ == old(core).vars@
                    &&& final(core).flags@ == old(core).flags@
                    &&& final(core).nest@ == old(core).nest@
                    &&& final(core).jobs.entries@ == old(core).jobs.entries@
                    &&& final(core).jobs.foreground == old(core).jobs.foreground
                    &&& final(core).diagnostics@ == old(core).diagnostics@
                },
                None => final(feeder).same_state(old(feeder)) && final(core).same_core(
                    old(core),
                ),
            },
    {
        let ghost s0 = feeder.buf();
        let backup = feeder.snapshot();
        let mut text: Vec<char> = Vec::new();

        let name = eat_name(feeder);
        proof {
            lemma_name_run_bound(s0, 0);
        }
        if name.len() == 0 {
            feeder.rewind(backup);
            return None;
        }
        append_chars(&mut text, &name);
        proof {
            assert(text@ + feeder.buf() =~= s0);
        }
        let ghost buf1 = feeder.buf();

        let parens = {
            let mut p: Vec<char> = Vec::new();
            p.push('(');
            p.push(')');
            p
        };
        if !feeder.starts_with(&parens) {
            proof {
                assert(parens@.len() == 2 && parens@[0] == '(' && parens@[1] == ')');
                assert(!fn_def_matches(s0)) by {
                    if buf1.len() >= 2 && buf1[0] == '(' && buf1[1] == ')' {
                        assert(parens@ =~= buf1.take(2));
                        assert(parens@.is_prefix_of(buf1));
                    }
                }
            }
            feeder.rewind(backup);
            return None;
        }
        proof {
            assert(parens@.len() == 2 && parens@[0] == '(' && parens@[1] == ')');
            assert(buf1[0] == '(' && buf1[1] == ')');
        }
        let ps = feeder.consume(2);
        proof {
            assert(ps@ + feeder.buf() =~= buf1);
        }
        append_chars(&mut text, &ps);
        proof {
            assert(text@ + feeder.buf() =~= s0);
            assert(feeder.buf() =~= buf1.skip(2));
        }
        let ghost buf2 = feeder.buf();

        match eat_body(feeder) {
            Some((blanks, body)) => {
                proof {
                    assert(brace_body(buf2));
                    assert(fn_def_matches(s0));
                }
                append_chars(&mut text, &blanks);
                let mut rest: Vec<char> = Vec::new();
                rest.push('{');
                append_chars(&mut rest, &body);
                rest.push('}');
                append_chars(&mut text, &rest);
                proof {
                    assert(rest@ =~= seq!['{'] + body@ + seq!['}']);
                    assert(text@ + feeder.buf() =~= s0);
                    lemma_consume_total(*old(feeder), *feeder, text@);
                }
                let body_copy = crate::chars::clone_chars(&body);
                core.set_function(&name, body_copy);
                Some(Function { name, body, text })
            },
            None => {
                proof {
                    assert(!fn_def_matches(s0));
                }
                feeder.rewind(backup);
                None
            },
        }
    }
}

} // verus!
